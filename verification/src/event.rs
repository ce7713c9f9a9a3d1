use vstd::prelude::*;

verus! {

/// An event in the life of an order: it is placed, cancelled, or traded.
#[derive(Debug, Clone, Copy, PartialEq, Eq, Structural)]
pub enum OrderEvent {
    New { id: u64, price: u64, qty: u64 },
    Cancel { id: u64 },
    Trade { id: u64, qty: u64 },
}

impl OrderEvent {
    /// The id of the order that the event is about.
    pub open spec fn id(self) -> u64 {
        match self {
            OrderEvent::New { id, .. } => id,
            OrderEvent::Cancel { id } => id,
            OrderEvent::Trade { id, .. } => id,
        }
    }

    /// Returns the order id that every variant carries.
    pub fn order_id(&self) -> (r: u64)
        ensures
            r == self.id(),
    {
        match self {
            OrderEvent::New { id, .. } => *id,
            OrderEvent::Cancel { id } => *id,
            OrderEvent::Trade { id, .. } => *id,
        }
    }
}

} // verus!
