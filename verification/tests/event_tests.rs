use order_event_dispatcher::event::OrderEvent;
use order_event_dispatcher::message::DispatchMessage;
use order_event_dispatcher::producer::{next_message, produce_events};

#[test]
fn order_id_extraction() {
    let new = OrderEvent::New {
        id: 1,
        price: 100,
        qty: 10,
    };

    let cancel = OrderEvent::Cancel { id: 2 };
    let trade = OrderEvent::Trade { id: 3, qty: 3 };

    assert_eq!(new.order_id(), 1);
    assert_eq!(cancel.order_id(), 2);
    assert_eq!(trade.order_id(), 3);
}

#[test]
fn producer_sends_the_demo_events() {
    let events = produce_events();
    assert_eq!(events.len(), 8);
    assert_eq!(events[0], OrderEvent::New { id: 1, price: 50_000, qty: 10 });
    assert_eq!(events[3], OrderEvent::Cancel { id: 2 });
    assert_eq!(events[7], OrderEvent::Trade { id: 1, qty: 0 });
    let ids: Vec<u64> = events.iter().map(|e| e.order_id()).collect();
    assert_eq!(ids, vec![1, 2, 1, 2, 1, 3, 3, 1]);
}

#[test]
fn producer_next_message_stops_on_failure_or_end() {
    let events = produce_events();
    match next_message(&events, 2, false) {
        Some(DispatchMessage::FireAndForget(e)) => assert_eq!(e, OrderEvent::Trade { id: 1, qty: 3 }),
        _ => panic!("the third event comes next"),
    }
    assert!(next_message(&events, 2, true).is_none());
    assert!(next_message(&events, 8, false).is_none());
}
