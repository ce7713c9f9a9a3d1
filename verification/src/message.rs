use vstd::prelude::*;

use crate::error::DispatchError;
use crate::event::OrderEvent;

verus! {

#[verifier::external_type_specification]
#[verifier::external_body]
#[verifier::reject_recursive_types(T)]
pub struct ExOneshotSender<T>(tokio::sync::oneshot::Sender<T>);

/// A message to the dispatcher: an event to handle, and, for a request, the
/// one-shot channel on which the outcome of the handlers is to be answered.
pub enum DispatchMessage {
    FireAndForget(OrderEvent),
    RequestReply {
        event: OrderEvent,
        reply: tokio::sync::oneshot::Sender<Result<(), DispatchError>>,
    },
}

impl DispatchMessage {
    /// The event that the message carries.
    pub open spec fn spec_event(&self) -> OrderEvent {
        match self {
            DispatchMessage::FireAndForget(event) => *event,
            DispatchMessage::RequestReply { event, .. } => *event,
        }
    }

    /// Returns the event that the message carries, whichever its kind.
    pub fn event(&self) -> (r: &OrderEvent)
        ensures
            *r == self.spec_event(),
    {
        match self {
            DispatchMessage::FireAndForget(event) => event,
            DispatchMessage::RequestReply { event, .. } => event,
        }
    }
}

} // verus!
