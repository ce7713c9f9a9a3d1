//! Order events and the dispatcher that hands them to a list of handlers,
//! with the small text and slice utilities that go with them.

pub mod error;
pub mod event;
pub mod text;
pub mod handler;
pub mod message;
pub mod dispatcher;
pub mod producer;
pub mod lifetime;
pub mod matching;
pub mod wide;
pub mod delay;
