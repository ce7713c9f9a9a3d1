[package]
name = "order_event_dispatcher"
version = "0.1.0"
edition = "2021"
publish = false

[dependencies]
tokio = { version = "=1.54.1", features = ["sync", "rt-multi-thread", "macros", "time", "net"] }
tracing = "=0.1.44"
tracing-subscriber = "=0.3.23"
futures = "=0.3.34"
crossbeam-channel = "=0.5.17"
