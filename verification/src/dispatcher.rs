use vstd::prelude::*;

use crate::error::{describes, DispatchError, DispatchErrorView};
use crate::event::OrderEvent;
use crate::handler::{log_records, logging_count, record_fits, AnyHandler, Handler, LogRecord, outcome_matches};
use crate::message::DispatchMessage;

verus! {

#[verifier::external_type_specification]
#[verifier::external_body]
#[verifier::reject_recursive_types(T)]
pub struct ExMpscReceiver<T>(tokio::sync::mpsc::Receiver<T>);

/// What a dispatcher has seen: the messages it took in, and how many handler
/// calls failed.
#[derive(Debug, Clone, Copy, PartialEq, Eq, Structural)]
pub struct DispatchStats {
    pub total_events: u64,
    pub handler_errors: u64,
}

/// Every handler after it has handled `event`, in the same order.
pub open spec fn advance<H: Handler>(hs: Seq<H>, event: OrderEvent) -> Seq<H> {
    hs.map_values(|h: H| h.after(event))
}

/// How many of the handlers fail on `event`.
pub open spec fn failure_count<H: Handler>(hs: Seq<H>, event: OrderEvent) -> nat
    decreases hs.len(),
{
    if hs.len() == 0 {
        0
    } else {
        failure_count(hs.drop_last(), event) + if hs.last().failure(event) is Some {
            1nat
        } else {
            0nat
        }
    }
}

/// The error of the first handler that fails on `event`, if any fails.
pub open spec fn first_failure<H: Handler>(hs: Seq<H>, event: OrderEvent) -> Option<
    DispatchErrorView,
>
    decreases hs.len(),
{
    if hs.len() == 0 {
        None
    } else {
        let earlier = first_failure(hs.drop_last(), event);
        if earlier is Some {
            earlier
        } else {
            hs.last().failure(event)
        }
    }
}

/// A prefix of the handlers has no more failures than all of them.
pub proof fn lemma_failure_count_prefix<H: Handler>(hs: Seq<H>, event: OrderEvent, i: int)
    requires
        0 <= i <= hs.len(),
    ensures
        failure_count(hs.take(i), event) <= failure_count(hs, event),
        failure_count(hs, event) <= hs.len(),
    decreases hs.len(),
{
    if hs.len() > 0 {
        lemma_failure_count_prefix(hs.drop_last(), event, if i == hs.len() { i - 1 } else { i });
        if i == hs.len() {
            assert(hs.take(i) =~= hs);
        } else {
            assert(hs.drop_last().take(i) =~= hs.take(i));
        }
    }
}

/// The positions of the handlers that fail on `event`, in order.
pub open spec fn failing_indices<H: Handler>(hs: Seq<H>, event: OrderEvent) -> Seq<int>
    decreases hs.len(),
{
    if hs.len() == 0 {
        Seq::empty()
    } else {
        let earlier = failing_indices(hs.drop_last(), event);
        if hs.last().failure(event) is Some {
            earlier.push(hs.len() - 1)
        } else {
            earlier
        }
    }
}

/// There is one failing position per failure, each a position of the list.
pub proof fn lemma_failing_indices<H: Handler>(hs: Seq<H>, event: OrderEvent)
    ensures
        failing_indices(hs, event).len() == failure_count(hs, event),
        forall|k: int|
            0 <= k < failing_indices(hs, event).len() ==> 0 <= #[trigger] failing_indices(
                hs,
                event,
            )[k] < hs.len(),
    decreases hs.len(),
{
    if hs.len() > 0 {
        lemma_failing_indices(hs.drop_last(), event);
    }
}

/// The failing positions are exactly the positions of the handlers that
/// fail on `event`, whatever the kind of event, each once and in increasing
/// order; the failure count is their number.
pub proof fn law_failing_indices_exact<H: Handler>(hs: Seq<H>, event: OrderEvent)
    ensures
        forall|k: int|
            0 <= k < failing_indices(hs, event).len() ==> 0 <= #[trigger] failing_indices(
                hs,
                event,
            )[k] < hs.len() && hs[failing_indices(hs, event)[k]].failure(event) is Some,
        forall|k1: int, k2: int|
            0 <= k1 < k2 < failing_indices(hs, event).len() ==> #[trigger] failing_indices(
                hs,
                event,
            )[k1] < #[trigger] failing_indices(hs, event)[k2],
        forall|j: int|
            0 <= j < hs.len() && (#[trigger] hs[j]).failure(event) is Some ==> failing_indices(
                hs,
                event,
            ).contains(j),
        failure_count(hs, event) == failing_indices(hs, event).len(),
    decreases hs.len(),
{
    lemma_failing_indices(hs, event);
    if hs.len() > 0 {
        let prev = hs.drop_last();
        law_failing_indices_exact(prev, event);
        let fp = failing_indices(prev, event);
        let f = failing_indices(hs, event);
        let last = hs.len() - 1;
        assert forall|k: int| 0 <= k < f.len() implies 0 <= #[trigger] f[k] < hs.len()
            && hs[f[k]].failure(event) is Some by {
            if k < fp.len() {
                assert(f[k] == fp[k]);
                assert(hs[fp[k]] == prev[fp[k]]);
            }
        }
        assert forall|k1: int, k2: int| 0 <= k1 < k2 < f.len() implies #[trigger] f[k1]
            < #[trigger] f[k2] by {
            if k2 < fp.len() {
                assert(f[k1] == fp[k1] && f[k2] == fp[k2]);
            } else {
                assert(f[k1] == fp[k1]);
            }
        }
        assert forall|j: int| 0 <= j < hs.len() && (#[trigger] hs[j]).failure(event) is Some implies f.contains(
            j,
        ) by {
            if j < last {
                assert(prev[j] == hs[j]);
                let k = choose|k: int| 0 <= k < fp.len() && fp[k] == j;
                assert(f[k] == j);
            } else {
                assert(f[f.len() - 1] == j);
            }
        }
    }
}

/// The answer to a request is an error exactly when some handler fails on
/// the event, and then it is the error of the failing handler with the
/// smallest position.
pub proof fn law_first_failure_is_first<H: Handler>(hs: Seq<H>, event: OrderEvent)
    ensures
        first_failure(hs, event) is Some <==> failure_count(hs, event) > 0,
        failure_count(hs, event) > 0 ==> first_failure(hs, event) == hs[failing_indices(
            hs,
            event,
        )[0]].failure(event),
        first_failure(hs, event) is None <==> forall|j: int|
            0 <= j < hs.len() ==> (#[trigger] hs[j]).failure(event) is None,
    decreases hs.len(),
{
    law_failing_indices_exact(hs, event);
    if hs.len() > 0 {
        let prev = hs.drop_last();
        law_first_failure_is_first(prev, event);
        law_failing_indices_exact(prev, event);
        let fp = failing_indices(prev, event);
        if fp.len() > 0 {
            assert(failing_indices(hs, event)[0] == fp[0]);
            assert(hs[fp[0]] == prev[fp[0]]);
        }
        if first_failure(hs, event) is None {
            assert forall|j: int| 0 <= j < hs.len() implies (#[trigger] hs[j]).failure(
                event,
            ) is None by {
                if j < hs.len() - 1 {
                    assert(prev[j] == hs[j]);
                }
            }
        } else {
            if first_failure(prev, event) is None {
                assert(hs[hs.len() - 1].failure(event) is Some);
            } else {
                let j = failing_indices(prev, event)[0];
                assert(prev[j] == hs[j]);
            }
        }
    }
}

/// A handler call that failed: the handler's position in the list, and the
/// message of its error.
pub struct HandlerFailure {
    pub index: usize,
    pub message: String,
}

/// `f` reports the failure of the handler at its position in `hs`, with the
/// message of the error that handler reports for `event`.
pub open spec fn reports_failure<H: Handler>(hs: Seq<H>, event: OrderEvent, f: HandlerFailure) -> bool {
    &&& 0 <= f.index < hs.len()
    &&& hs[f.index as int].failure(event) matches Some(e) && describes(f.message@, e)
}

/// `fs` reports, in order, every handler of `hs` that fails on `event`.
pub open spec fn reports_failures<H: Handler>(
    hs: Seq<H>,
    event: OrderEvent,
    fs: Seq<HandlerFailure>,
) -> bool {
    &&& fs.len() == failing_indices(hs, event).len()
    &&& forall|k: int|
        0 <= k < fs.len() ==> (#[trigger] fs[k]).index == failing_indices(hs, event)[k]
            && reports_failure(hs, event, fs[k])
}

/// Runs every handler on `event`, in order, whether or not an earlier one
/// failed; counts the failures in `stats`, reports each of them, and answers
/// the first error.
fn run_handlers<H: Handler>(handlers: &mut Vec<H>, event: &OrderEvent, stats: &mut DispatchStats) -> (r:
    (Vec<HandlerFailure>, Result<(), DispatchError>))
    requires
        old(stats).handler_errors + failure_count(old(handlers)@, *event) <= u64::MAX,
    ensures
        final(handlers)@ == advance(old(handlers)@, *event),
        *final(stats) == (DispatchStats {
            handler_errors: (old(stats).handler_errors + failure_count(old(handlers)@, *event)) as u64,
            ..*old(stats)
        }),
        reports_failures(old(handlers)@, *event, r.0@),
        outcome_matches(r.1, first_failure(old(handlers)@, *event)),
{
    let ghost hs0 = handlers@;
    let n = handlers.len();
    let mut first_error: Option<DispatchError> = None;
    let mut failures: Vec<HandlerFailure> = Vec::new();
    for i in 0..n
        invariant
            n == hs0.len(),
            handlers@.len() == n,
            forall|j: int| 0 <= j < i ==> #[trigger] handlers@[j] == hs0[j].after(*event),
            forall|j: int| i <= j < n ==> #[trigger] handlers@[j] == hs0[j],
            stats.total_events == old(stats).total_events,
            stats.handler_errors == old(stats).handler_errors + failure_count(hs0.take(i as int), *event),
            old(stats).handler_errors + failure_count(hs0, *event) <= u64::MAX,
            match first_error {
                None => first_failure(hs0.take(i as int), *event) is None,
                Some(e) => first_failure(hs0.take(i as int), *event) == Some(e@),
            },
            failures@.len() == failing_indices(hs0.take(i as int), *event).len(),
            forall|k: int|
                0 <= k < failures@.len() ==> (#[trigger] failures@[k]).index == failing_indices(
                    hs0.take(i as int),
                    *event,
                )[k] && reports_failure(hs0, *event, failures@[k]),
    {
        assert(hs0.take(i + 1).drop_last() =~= hs0.take(i as int));
        proof {
            lemma_failure_count_prefix(hs0, *event, i + 1);
        }
        let res = handlers[i].handle(event);
        match res {
            Ok(()) => {},
            Err(e) => {
                stats.handler_errors = stats.handler_errors + 1;
                let message = e.to_string();
                failures.push(HandlerFailure { index: i, message });
                if first_error.is_none() {
                    first_error = Some(e);
                }
            },
        }
    }
    assert(hs0.take(n as int) =~= hs0);
    assert(handlers@ =~= advance(hs0, *event));
    let result = match first_error {
        None => Ok(()),
        Some(e) => Err(e),
    };
    (failures, result)
}

/// The stats and handlers after `events` have been taken in one by one, from
/// `stats` and `hs`, each step as `WrappedDispatcher::process_event` (and
/// `Dispatcher::process_message`, for the events of the messages) states it.
pub open spec fn run_events<H: Handler>(stats: DispatchStats, hs: Seq<H>, events: Seq<OrderEvent>) -> (
    DispatchStats,
    Seq<H>,
)
    decreases events.len(),
{
    if events.len() == 0 {
        (stats, hs)
    } else {
        let (s, h) = run_events(stats, hs, events.drop_last());
        let e = events.last();
        (
            DispatchStats {
                total_events: (s.total_events + 1) as u64,
                handler_errors: (s.handler_errors + failure_count(h, e)) as u64,
            },
            advance(h, e),
        )
    }
}

/// The handlers after each has handled `events`, first to last.
pub open spec fn handlers_after<H: Handler>(hs: Seq<H>, events: Seq<OrderEvent>) -> Seq<H>
    decreases events.len(),
{
    if events.len() == 0 {
        hs
    } else {
        advance(handlers_after(hs, events.drop_last()), events.last())
    }
}

/// How many handler calls fail while `hs` handle `events`, first to last.
pub open spec fn errors_over<H: Handler>(hs: Seq<H>, events: Seq<OrderEvent>) -> nat
    decreases events.len(),
{
    if events.len() == 0 {
        0
    } else {
        errors_over(hs, events.drop_last()) + failure_count(
            handlers_after(hs, events.drop_last()),
            events.last(),
        )
    }
}

/// Every event taken in is counted once, whatever its handlers do; the
/// handler errors grow by exactly the number of failing handler calls, which
/// is at most one per handler and event; and every handler has handled every
/// event, in order (provided the counters do not overflow).
pub proof fn law_run_counts_every_event<H: Handler>(
    stats: DispatchStats,
    hs: Seq<H>,
    events: Seq<OrderEvent>,
)
    requires
        stats.total_events + events.len() <= u64::MAX,
        stats.handler_errors + hs.len() * events.len() <= u64::MAX,
    ensures
        run_events(stats, hs, events).0.total_events == stats.total_events + events.len(),
        run_events(stats, hs, events).0.handler_errors == stats.handler_errors + errors_over(
            hs,
            events,
        ),
        errors_over(hs, events) <= hs.len() * events.len(),
        run_events(stats, hs, events).1 == handlers_after(hs, events),
    decreases events.len(),
{
    if events.len() > 0 {
        let prefix = events.drop_last();
        let n = hs.len();
        let k = prefix.len();
        assert(n * k <= n * events.len()) by (nonlinear_arith)
            requires
                k < events.len(),
        ;
        assert(n * k + n == n * events.len()) by (nonlinear_arith)
            requires
                k + 1 == events.len(),
        ;
        law_run_counts_every_event(stats, hs, prefix);
        lemma_handlers_after_len(hs, prefix);
        let h = handlers_after(hs, prefix);
        lemma_failure_count_prefix(h, events.last(), 0);
    }
}

/// Taking in a single event is one step of `run_events`.
proof fn lemma_run_one<H: Handler>(stats: DispatchStats, hs: Seq<H>, e: OrderEvent)
    ensures
        run_events(stats, hs, seq![e]) == (
            DispatchStats {
                total_events: (stats.total_events + 1) as u64,
                handler_errors: (stats.handler_errors + failure_count(hs, e)) as u64,
            },
            advance(hs, e),
        ),
{
    let one = seq![e];
    assert(one.drop_last() =~= Seq::<OrderEvent>::empty());
    assert(one.last() == e);
    assert(run_events(stats, hs, one.drop_last()) == (stats, hs));
}

/// Handling events keeps the number of handlers.
pub proof fn lemma_handlers_after_len<H: Handler>(hs: Seq<H>, events: Seq<OrderEvent>)
    ensures
        handlers_after(hs, events).len() == hs.len(),
    decreases events.len(),
{
    if events.len() > 0 {
        lemma_handlers_after_len(hs, events.drop_last());
    }
}

/// Takes messages from its channel and hands the event of each to every
/// handler, in order.
pub struct Dispatcher<H: Handler> {
    pub rx: tokio::sync::mpsc::Receiver<DispatchMessage>,
    handlers: Vec<H>,
}

/// A receiver of bare events, waiting for the handlers that will serve it.
pub struct EventRxAdapter {
    pub rx: tokio::sync::mpsc::Receiver<OrderEvent>,
}

/// Takes bare events from its channel and hands each to every handler.
pub struct WrappedDispatcher<H: Handler> {
    pub rx: tokio::sync::mpsc::Receiver<OrderEvent>,
    handlers: Vec<H>,
}

/// A reply that a request is owed: the channel to answer on, and the answer.
pub type Reply = (tokio::sync::oneshot::Sender<Result<(), DispatchError>>, Result<(), DispatchError>);

impl<H: Handler> Dispatcher<H> {
    /// The handlers, in the order in which they are called.
    pub closed spec fn handlers(&self) -> Seq<H> {
        self.handlers@
    }

    /// The channel that the dispatcher reads.
    pub closed spec fn receiver(&self) -> tokio::sync::mpsc::Receiver<DispatchMessage> {
        self.rx
    }

    /// A dispatcher that reads `rx` and serves `handlers`.
    pub fn new(rx: tokio::sync::mpsc::Receiver<DispatchMessage>, handlers: Vec<H>) -> (r: Self)
        ensures
            r.receiver() == rx,
            r.handlers() == handlers@,
    {
        Dispatcher { rx, handlers }
    }

    /// Gives the handlers back, for instance to read their state once the
    /// channel has closed.
    pub fn into_handlers(self) -> (r: Vec<H>)
        ensures
            r@ == self.handlers(),
    {
        self.handlers
    }

    /// How many handlers each event goes to.
    pub fn handler_count(&self) -> (r: usize)
        ensures
            r == self.handlers().len(),
    {
        self.handlers.len()
    }

    /// Starts a dispatcher for a channel of bare events; its handlers are
    /// given next, by `EventRxAdapter::with_handlers`.
    pub fn from_event_rx(rx: tokio::sync::mpsc::Receiver<OrderEvent>) -> (r: EventRxAdapter)
        ensures
            r.rx == rx,
    {
        EventRxAdapter { rx }
    }

    /// Hands `event` to every handler; a failing handler is counted in
    /// `stats` and reported in the answer, and the others still run.
    pub fn dispatch_fire_and_forget(&mut self, event: &OrderEvent, stats: &mut DispatchStats) -> (r:
        Vec<HandlerFailure>)
        requires
            old(stats).handler_errors + failure_count(old(self).handlers(), *event) <= u64::MAX,
        ensures
            final(self).receiver() == old(self).receiver(),
            final(self).handlers() == advance(old(self).handlers(), *event),
            *final(stats) == (DispatchStats {
                handler_errors: (old(stats).handler_errors + failure_count(
                    old(self).handlers(),
                    *event,
                )) as u64,
                ..*old(stats)
            }),
            reports_failures(old(self).handlers(), *event, r@),
    {
        let (failures, _) = run_handlers(&mut self.handlers, event, stats);
        failures
    }

    /// Hands `event` to every handler, as `dispatch_fire_and_forget` does,
    /// reports each failure, and answers the error of the first handler that
    /// failed, or `Ok` when none did.
    pub fn dispatch_request_reply(&mut self, event: &OrderEvent, stats: &mut DispatchStats) -> (r: (
        Vec<HandlerFailure>,
        Result<(), DispatchError>,
    ))
        requires
            old(stats).handler_errors + failure_count(old(self).handlers(), *event) <= u64::MAX,
        ensures
            final(self).receiver() == old(self).receiver(),
            final(self).handlers() == advance(old(self).handlers(), *event),
            *final(stats) == (DispatchStats {
                handler_errors: (old(stats).handler_errors + failure_count(
                    old(self).handlers(),
                    *event,
                )) as u64,
                ..*old(stats)
            }),
            reports_failures(old(self).handlers(), *event, r.0@),
            outcome_matches(r.1, first_failure(old(self).handlers(), *event)),
    {
        run_handlers(&mut self.handlers, event, stats)
    }

    /// Takes one message in: counts it, hands its event to every handler,
    /// reports each failure, and, for a request, gives back the reply channel
    /// with the answer to send on it.
    pub fn process_message(&mut self, msg: DispatchMessage, stats: &mut DispatchStats) -> (r: (
        Vec<HandlerFailure>,
        Option<Reply>,
    ))
        requires
            old(stats).total_events < u64::MAX,
            old(stats).handler_errors + failure_count(old(self).handlers(), msg.spec_event())
                <= u64::MAX,
        ensures
            final(self).receiver() == old(self).receiver(),
            final(self).handlers() == advance(old(self).handlers(), msg.spec_event()),
            *final(stats) == (DispatchStats {
                total_events: (old(stats).total_events + 1) as u64,
                handler_errors: (old(stats).handler_errors + failure_count(
                    old(self).handlers(),
                    msg.spec_event(),
                )) as u64,
            }),
            (*final(stats), final(self).handlers()) == run_events(
                *old(stats),
                old(self).handlers(),
                seq![msg.spec_event()],
            ),
            reports_failures(old(self).handlers(), msg.spec_event(), r.0@),
            match msg {
                DispatchMessage::FireAndForget(_) => r.1 is None,
                DispatchMessage::RequestReply { event, reply } => r.1 matches Some((to, answer))
                    && to == reply && outcome_matches(
                    answer,
                    first_failure(old(self).handlers(), event),
                ),
            },
    {
        stats.total_events = stats.total_events + 1;
        proof {
            lemma_run_one(*old(stats), old(self).handlers(), msg.spec_event());
        }
        match msg {
            DispatchMessage::FireAndForget(event) => {
                let failures = self.dispatch_fire_and_forget(&event, stats);
                (failures, None)
            },
            DispatchMessage::RequestReply { event, reply } => {
                let (failures, result) = self.dispatch_request_reply(&event, stats);
                (failures, Some((reply, result)))
            },
        }
    }
}

impl Dispatcher<AnyHandler> {
    /// The log lines that the logging handlers in the list write for `event`,
    /// one per logging handler, in list order.
    pub fn log_records(&self, event: &OrderEvent) -> (r: Vec<LogRecord>)
        ensures
            r@.len() == logging_count(self.handlers()),
            r@.len() == self.handlers().filter(|h: AnyHandler| h is Logging).len(),
            forall|k: int| 0 <= k < r@.len() ==> record_fits(#[trigger] r@[k], *event),
    {
        log_records(&self.handlers, event)
    }
}

impl WrappedDispatcher<AnyHandler> {
    /// The log lines that the logging handlers in the list write for `event`,
    /// one per logging handler, in list order.
    pub fn log_records(&self, event: &OrderEvent) -> (r: Vec<LogRecord>)
        ensures
            r@.len() == logging_count(self.handlers()),
            r@.len() == self.handlers().filter(|h: AnyHandler| h is Logging).len(),
            forall|k: int| 0 <= k < r@.len() ==> record_fits(#[trigger] r@[k], *event),
    {
        log_records(&self.handlers, event)
    }
}

impl EventRxAdapter {
    /// The dispatcher that serves this channel with `handlers`.
    pub fn with_handlers<H: Handler>(self, handlers: Vec<H>) -> (r: WrappedDispatcher<H>)
        ensures
            r.receiver() == self.rx,
            r.handlers() == handlers@,
    {
        WrappedDispatcher { rx: self.rx, handlers }
    }
}

impl<H: Handler> WrappedDispatcher<H> {
    /// The handlers, in the order in which they are called.
    pub closed spec fn handlers(&self) -> Seq<H> {
        self.handlers@
    }

    /// The channel that the dispatcher reads.
    pub closed spec fn receiver(&self) -> tokio::sync::mpsc::Receiver<OrderEvent> {
        self.rx
    }

    /// Gives the handlers back, for instance to read their state once the
    /// channel has closed.
    pub fn into_handlers(self) -> (r: Vec<H>)
        ensures
            r@ == self.handlers(),
    {
        self.handlers
    }

    /// How many handlers each event goes to.
    pub fn handler_count(&self) -> (r: usize)
        ensures
            r == self.handlers().len(),
    {
        self.handlers.len()
    }

    /// Takes one event in: counts it and hands it to every handler; a failing
    /// handler is counted and reported, and the others still run.
    pub fn process_event(&mut self, event: OrderEvent, stats: &mut DispatchStats) -> (r: Vec<
        HandlerFailure,
    >)
        requires
            old(stats).total_events < u64::MAX,
            old(stats).handler_errors + failure_count(old(self).handlers(), event) <= u64::MAX,
        ensures
            final(self).receiver() == old(self).receiver(),
            final(self).handlers() == advance(old(self).handlers(), event),
            *final(stats) == (DispatchStats {
                total_events: (old(stats).total_events + 1) as u64,
                handler_errors: (old(stats).handler_errors + failure_count(
                    old(self).handlers(),
                    event,
                )) as u64,
            }),
            (*final(stats), final(self).handlers()) == run_events(
                *old(stats),
                old(self).handlers(),
                seq![event],
            ),
            reports_failures(old(self).handlers(), event, r@),
    {
        stats.total_events = stats.total_events + 1;
        let (failures, _) = run_handlers(&mut self.handlers, &event, stats);
        proof {
            lemma_run_one(*old(stats), old(self).handlers(), event);
        }
        failures
    }
}

} // verus!
