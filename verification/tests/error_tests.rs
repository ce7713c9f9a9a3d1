use order_event_dispatcher::error::DispatchError;

#[test]
fn from_io_error() {
    let io_error = std::io::Error::new(std::io::ErrorKind::Other, "disk full");
    let dispatch_error: DispatchError = io_error.into();

    assert!(matches!(dispatch_error, DispatchError::Io(_)));
    assert!(dispatch_error.to_string().contains("disk full"));
}

#[test]
fn io_error_message_has_prefix() {
    let dispatch_error = DispatchError::from(std::io::Error::new(std::io::ErrorKind::Other, "disk full"));
    assert_eq!(dispatch_error.to_string(), "io error: disk full");
}

#[test]
fn handler_failed_message() {
    let e = DispatchError::HandlerFailed("boom".to_string());
    assert_eq!(e.to_string(), "handler failed: boom");
}

#[test]
fn invalid_event_message() {
    let e = DispatchError::InvalidEvent("qty is zero".to_string());
    assert_eq!(e.to_string(), "invalid event data: qty is zero");
}
