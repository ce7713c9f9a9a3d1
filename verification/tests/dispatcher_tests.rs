use order_event_dispatcher::dispatcher::{DispatchStats, Dispatcher};
use order_event_dispatcher::error::DispatchError;
use order_event_dispatcher::event::OrderEvent;
use order_event_dispatcher::handler::{AnyHandler, FailingHandler, LoggingHandler, MetricsHandler};
use order_event_dispatcher::message::DispatchMessage;

#[test]
fn fire_and_forget_counts_every_failure() {
    let (_tx, rx) = tokio::sync::mpsc::channel::<DispatchMessage>(4);
    let handlers = vec![FailingHandler::new(2), FailingHandler::new(3), FailingHandler::new(5)];
    let mut d = Dispatcher::new(rx, handlers);
    let mut stats = DispatchStats { total_events: 0, handler_errors: 0 };
    let failures = d.dispatch_fire_and_forget(&OrderEvent::Cancel { id: 6 }, &mut stats);
    assert_eq!(stats, DispatchStats { total_events: 0, handler_errors: 2 });
    let indices: Vec<usize> = failures.iter().map(|f| f.index).collect();
    assert_eq!(indices, vec![0, 1]);
    assert_eq!(failures[1].message, "handler failed: deliberate failure for order 6");
    let failures = d.dispatch_fire_and_forget(&OrderEvent::Cancel { id: 7 }, &mut stats);
    assert!(failures.is_empty());
    assert_eq!(stats, DispatchStats { total_events: 0, handler_errors: 2 });
}

#[test]
fn request_reply_answers_first_error() {
    let (_tx, rx) = tokio::sync::mpsc::channel::<DispatchMessage>(4);
    let handlers = vec![FailingHandler::new(4), FailingHandler::new(3), FailingHandler::new(2)];
    let mut d = Dispatcher::new(rx, handlers);
    let mut stats = DispatchStats { total_events: 0, handler_errors: 0 };
    let (failures, answer) = d.dispatch_request_reply(&OrderEvent::Trade { id: 6, qty: 1 }, &mut stats);
    let indices: Vec<usize> = failures.iter().map(|f| f.index).collect();
    assert_eq!(indices, vec![1, 2]);
    match answer {
        Err(DispatchError::HandlerFailed(msg)) => assert_eq!(msg, "deliberate failure for order 6"),
        other => panic!("unexpected {:?}", other),
    }
    assert_eq!(stats.handler_errors, 2);
    assert!(d.dispatch_request_reply(&OrderEvent::Trade { id: 5, qty: 1 }, &mut stats).1.is_ok());
    assert_eq!(stats.handler_errors, 2);
}

#[test]
fn process_message_counts_and_replies() {
    let (_tx, rx) = tokio::sync::mpsc::channel::<DispatchMessage>(4);
    let handlers = vec![
        AnyHandler::Metrics(MetricsHandler::new()),
        AnyHandler::Failing(FailingHandler::new(2)),
    ];
    let mut d = Dispatcher::new(rx, handlers);
    let mut stats = DispatchStats { total_events: 0, handler_errors: 0 };

    let (failures, r) = d.process_message(DispatchMessage::FireAndForget(OrderEvent::Cancel { id: 2 }), &mut stats);
    assert!(r.is_none());
    assert_eq!(failures.len(), 1);
    assert_eq!(failures[0].index, 1);
    assert_eq!(stats, DispatchStats { total_events: 1, handler_errors: 1 });

    let (reply_tx, mut reply_rx) = tokio::sync::oneshot::channel();
    let msg = DispatchMessage::RequestReply { event: OrderEvent::New { id: 3, price: 1, qty: 1 }, reply: reply_tx };
    assert_eq!(msg.event().order_id(), 3);
    let (to, answer) = d.process_message(msg, &mut stats).1.expect("a request is answered");
    assert!(answer.is_ok());
    to.send(answer).unwrap();
    assert!(matches!(reply_rx.try_recv(), Ok(Ok(()))));
    assert_eq!(stats, DispatchStats { total_events: 2, handler_errors: 1 });

    let (reply_tx, _reply_rx) = tokio::sync::oneshot::channel();
    let msg = DispatchMessage::RequestReply { event: OrderEvent::Trade { id: 4, qty: 1 }, reply: reply_tx };
    let (_to, answer) = d.process_message(msg, &mut stats).1.expect("a request is answered");
    assert!(matches!(answer, Err(DispatchError::HandlerFailed(_))));
    assert_eq!(stats, DispatchStats { total_events: 3, handler_errors: 2 });

    let handlers = d.into_handlers();
    match &handlers[0] {
        AnyHandler::Metrics(m) => {
            let snap = m.snapshot();
            assert_eq!((snap.new_count, snap.cancel_count, snap.trade_count), (1, 1, 1));
        }
        _ => panic!("the metrics handler comes first"),
    }
}

#[test]
fn wrapped_dispatcher_counts_events() {
    let (_tx, rx) = tokio::sync::mpsc::channel::<OrderEvent>(4);
    let mut d = Dispatcher::<FailingHandler>::from_event_rx(rx).with_handlers(vec![FailingHandler::new(1)]);
    let mut stats = DispatchStats { total_events: 0, handler_errors: 0 };
    for id in 0..5 {
        let failures = d.process_event(OrderEvent::Cancel { id }, &mut stats);
        assert_eq!(failures.len(), 1);
    }
    assert_eq!(stats, DispatchStats { total_events: 5, handler_errors: 5 });
}

#[test]
fn log_records_one_per_logging_handler() {
    let (_tx, rx) = tokio::sync::mpsc::channel::<DispatchMessage>(4);
    let handlers = vec![
        AnyHandler::Logging(LoggingHandler),
        AnyHandler::Metrics(MetricsHandler::new()),
        AnyHandler::Logging(LoggingHandler),
    ];
    let d = Dispatcher::new(rx, handlers);
    let records = d.log_records(&OrderEvent::Trade { id: 4, qty: 2 });
    assert_eq!(records.len(), 2);
    assert_eq!(records[0].message, "trade");
    assert_eq!((records[1].order_id, records[1].qty), (4, Some(2)));

    let (_tx2, rx2) = tokio::sync::mpsc::channel::<DispatchMessage>(4);
    let d2 = Dispatcher::new(rx2, vec![AnyHandler::Metrics(MetricsHandler::new())]);
    assert!(d2.log_records(&OrderEvent::Cancel { id: 1 }).is_empty());
}
