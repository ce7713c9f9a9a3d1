use order_event_dispatcher::error::DispatchError;
use order_event_dispatcher::event::OrderEvent;
use order_event_dispatcher::handler::{FailingHandler, Handler, LoggingHandler, MetricsHandler};

#[test]
fn logging_handler_succeeds() {
    let mut handler = LoggingHandler;
    let event = OrderEvent::New {
        id: 1,
        price: 100,
        qty: 10,
    };

    assert!(handler.handle(&event).is_ok());
}

#[test]
fn metrics_handler_counts() {
    let mut handler = MetricsHandler::new();
    handler
        .handle(&OrderEvent::New {
            id: 1,
            price: 100,
            qty: 10,
        })
        .unwrap();

    handler
        .handle(&OrderEvent::Trade { id: 2, qty: 10 })
        .unwrap();

    handler
        .handle(&OrderEvent::Trade { id: 3, qty: 10 })
        .unwrap();

    handler.handle(&OrderEvent::Cancel { id: 4 }).unwrap();

    let snap = handler.snapshot();

    assert_eq!(snap.new_count, 1);
    assert_eq!(snap.cancel_count, 1);
    assert_eq!(snap.trade_count, 2);
}

#[test]
fn metrics_default_starts_at_zero() {
    let handler = MetricsHandler::default();
    let snap = handler.snapshot();
    assert_eq!((snap.new_count, snap.cancel_count, snap.trade_count), (0, 0, 0));
}

#[test]
fn logging_record_fields() {
    let handler = LoggingHandler;
    let rec = handler.record(&OrderEvent::New { id: 7, price: 100, qty: 10 });
    assert_eq!(rec.message, "new order");
    assert_eq!((rec.order_id, rec.price, rec.qty), (7, Some(100), Some(10)));
    let rec = handler.record(&OrderEvent::Cancel { id: 8 });
    assert_eq!(rec.message, "cancel order");
    assert_eq!((rec.order_id, rec.price, rec.qty), (8, None, None));
    let rec = handler.record(&OrderEvent::Trade { id: 9, qty: 4 });
    assert_eq!(rec.message, "trade");
    assert_eq!((rec.order_id, rec.price, rec.qty), (9, None, Some(4)));
}

#[test]
fn failing_handler_fails_on_multiples() {
    let mut handler = FailingHandler::new(3);
    assert_eq!(handler.fail_divisor(), 3);
    assert!(handler.handle(&OrderEvent::Cancel { id: 4 }).is_ok());
    match handler.handle(&OrderEvent::Trade { id: 12, qty: 1 }) {
        Err(DispatchError::HandlerFailed(msg)) => assert_eq!(msg, "deliberate failure for order 12"),
        other => panic!("unexpected {:?}", other),
    }
    match handler.handle(&OrderEvent::Cancel { id: 0 }) {
        Err(DispatchError::HandlerFailed(msg)) => assert_eq!(msg, "deliberate failure for order 0"),
        other => panic!("unexpected {:?}", other),
    }
}

#[test]
fn metrics_counts_do_not_depend_on_order() {
    let events = [
        OrderEvent::Cancel { id: 1 },
        OrderEvent::New { id: 2, price: 5, qty: 1 },
        OrderEvent::Trade { id: 3, qty: 1 },
        OrderEvent::Cancel { id: 4 },
    ];
    let mut forward = MetricsHandler::new();
    for e in events.iter() {
        forward.handle(e).unwrap();
    }
    let mut backward = MetricsHandler::new();
    for e in events.iter().rev() {
        backward.handle(e).unwrap();
    }
    assert_eq!(forward.snapshot(), backward.snapshot());
    assert_eq!(forward.snapshot().cancel_count, 2);
}
