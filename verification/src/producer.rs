use vstd::prelude::*;

use crate::event::OrderEvent;
use crate::message::DispatchMessage;

verus! {

/// The events that the demo producer sends, in order: two orders placed, a
/// trade and a cancel, a second trade, a third order placed and cancelled,
/// and an empty trade.
pub open spec fn produced_events() -> Seq<OrderEvent> {
    seq![
        OrderEvent::New { id: 1, price: 50_000, qty: 10 },
        OrderEvent::New { id: 2, price: 51_000, qty: 20 },
        OrderEvent::Trade { id: 1, qty: 3 },
        OrderEvent::Cancel { id: 2 },
        OrderEvent::Trade { id: 1, qty: 4 },
        OrderEvent::New { id: 3, price: 49_500, qty: 50 },
        OrderEvent::Cancel { id: 3 },
        OrderEvent::Trade { id: 1, qty: 0 },
    ]
}

/// The events that the producer sends, in the order in which it sends them.
pub fn produce_events() -> (r: Vec<OrderEvent>)
    ensures
        r@ == produced_events(),
{
    let r = vec![
        OrderEvent::New { id: 1, price: 50_000, qty: 10 },
        OrderEvent::New { id: 2, price: 51_000, qty: 20 },
        OrderEvent::Trade { id: 1, qty: 3 },
        OrderEvent::Cancel { id: 2 },
        OrderEvent::Trade { id: 1, qty: 4 },
        OrderEvent::New { id: 3, price: 49_500, qty: 50 },
        OrderEvent::Cancel { id: 3 },
        OrderEvent::Trade { id: 1, qty: 0 },
    ];
    assert(r@ =~= produced_events());
    r
}

/// The producer's next message, given how many events it has sent and
/// whether its last send failed: the next event as a fire-and-forget message,
/// or nothing once a send has failed (the receiver is gone) or every event
/// has been sent.
pub fn next_message(events: &Vec<OrderEvent>, sent: usize, last_send_failed: bool) -> (r: Option<
    DispatchMessage,
>)
    ensures
        r is None <==> (last_send_failed || sent >= events@.len()),
        r matches Some(m) ==> m is FireAndForget && m.spec_event() == events@[sent as int],
{
    if last_send_failed || sent >= events.len() {
        None
    } else {
        Some(DispatchMessage::FireAndForget(events[sent]))
    }
}

} // verus!
