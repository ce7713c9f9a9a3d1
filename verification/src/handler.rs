use vstd::prelude::*;
use vstd::string::*;

use crate::error::{DispatchError, DispatchErrorView};
use crate::event::OrderEvent;
use crate::text::{decimal, decimal_text};

verus! {

/// Something that reacts to each order event.
///
/// An implementation states, through the two spec functions, what handling an
/// event does to it and whether (and how) it fails; `handle` is held to them.
pub trait Handler: Sized + Send + Sync {
    /// The handler as it is after it has handled `event`.
    spec fn after(&self, event: OrderEvent) -> Self;

    /// The error that handling `event` reports, if it fails.
    spec fn failure(&self, event: OrderEvent) -> Option<DispatchErrorView>;

    fn handle(&mut self, event: &OrderEvent) -> (r: Result<(), DispatchError>)
        ensures
            *final(self) == old(self).after(*event),
            outcome_matches(r, old(self).failure(*event)),
    ;
}

/// The result of a handler agrees with the failure it was meant to report.
pub open spec fn outcome_matches(r: Result<(), DispatchError>, failure: Option<DispatchErrorView>) -> bool {
    match r {
        Ok(()) => failure is None,
        Err(e) => failure == Some(e@),
    }
}

/// A structured log line for an event: its message and fields.
pub struct LogRecord {
    pub message: String,
    pub order_id: u64,
    pub price: Option<u64>,
    pub qty: Option<u64>,
}

/// The message that the log line of an event carries.
pub open spec fn log_message(event: OrderEvent) -> Seq<char> {
    match event {
        OrderEvent::New { .. } => "new order"@,
        OrderEvent::Cancel { .. } => "cancel order"@,
        OrderEvent::Trade { .. } => "trade"@,
    }
}

/// `r` is the log line of `event`: a message naming the kind of event, the
/// order id, and the price and quantity where the event has them.
pub open spec fn record_fits(r: LogRecord, event: OrderEvent) -> bool {
    &&& r.message@ == log_message(event)
    &&& r.order_id == event.id()
    &&& r.price == (match event {
        OrderEvent::New { price, .. } => Some(price),
        _ => None,
    })
    &&& r.qty == (match event {
        OrderEvent::New { qty, .. } => Some(qty),
        OrderEvent::Trade { qty, .. } => Some(qty),
        _ => None,
    })
}

/// A handler that records every event in the log and never fails.
pub struct LoggingHandler;

impl LoggingHandler {
    /// The log line for `event`: a message naming the kind of event, the order
    /// id, and the price and quantity where the event has them.
    pub fn record(&self, event: &OrderEvent) -> (r: LogRecord)
        ensures
            record_fits(r, *event),
    {
        proof {
            reveal_strlit("new order");
            reveal_strlit("cancel order");
            reveal_strlit("trade");
        }
        match event {
            OrderEvent::New { id, price, qty } => LogRecord {
                message: String::from_str("new order"),
                order_id: *id,
                price: Some(*price),
                qty: Some(*qty),
            },
            OrderEvent::Cancel { id } => LogRecord {
                message: String::from_str("cancel order"),
                order_id: *id,
                price: None,
                qty: None,
            },
            OrderEvent::Trade { id, qty } => LogRecord {
                message: String::from_str("trade"),
                order_id: *id,
                price: None,
                qty: Some(*qty),
            },
        }
    }
}

impl Handler for LoggingHandler {
    open spec fn after(&self, event: OrderEvent) -> Self {
        LoggingHandler
    }

    open spec fn failure(&self, event: OrderEvent) -> Option<DispatchErrorView> {
        None
    }

    fn handle(&mut self, event: &OrderEvent) -> (r: Result<(), DispatchError>) {
        Ok(())
    }
}

/// How many events of each kind a `MetricsHandler` has seen.
#[derive(Debug, Clone, Copy, PartialEq, Eq, Structural)]
pub struct MetricsSnapshot {
    pub new_count: u64,
    pub cancel_count: u64,
    pub trade_count: u64,
}

/// A handler that counts the events of each kind; the counters wrap around
/// past `u64::MAX`.
pub struct MetricsHandler {
    new_count: u64,
    cancel_count: u64,
    trade_count: u64,
}

/// One more, wrapping around past `u64::MAX`.
pub open spec fn bump(n: u64) -> u64 {
    if n == u64::MAX {
        0
    } else {
        (n + 1) as u64
    }
}

/// The counters after one more event has been counted.
pub open spec fn count_event(s: MetricsSnapshot, event: OrderEvent) -> MetricsSnapshot {
    match event {
        OrderEvent::New { .. } => MetricsSnapshot { new_count: bump(s.new_count), ..s },
        OrderEvent::Cancel { .. } => MetricsSnapshot { cancel_count: bump(s.cancel_count), ..s },
        OrderEvent::Trade { .. } => MetricsSnapshot { trade_count: bump(s.trade_count), ..s },
    }
}

impl View for MetricsHandler {
    type V = MetricsSnapshot;

    closed spec fn view(&self) -> MetricsSnapshot {
        MetricsSnapshot {
            new_count: self.new_count,
            cancel_count: self.cancel_count,
            trade_count: self.trade_count,
        }
    }
}

impl MetricsHandler {
    /// A handler whose counters are all zero.
    pub fn new() -> (r: Self)
        ensures
            r@ == (MetricsSnapshot { new_count: 0, cancel_count: 0, trade_count: 0 }),
    {
        MetricsHandler { new_count: 0, cancel_count: 0, trade_count: 0 }
    }

    /// The current counters.
    pub fn snapshot(&self) -> (r: MetricsSnapshot)
        ensures
            r == self@,
    {
        MetricsSnapshot {
            new_count: self.new_count,
            cancel_count: self.cancel_count,
            trade_count: self.trade_count,
        }
    }
}

impl Default for MetricsHandler {
    fn default() -> (r: Self)
        ensures
            r@ == (MetricsSnapshot { new_count: 0, cancel_count: 0, trade_count: 0 }),
    {
        Self::new()
    }
}

impl Handler for MetricsHandler {
    closed spec fn after(&self, event: OrderEvent) -> Self {
        let s = count_event(self@, event);
        MetricsHandler {
            new_count: s.new_count,
            cancel_count: s.cancel_count,
            trade_count: s.trade_count,
        }
    }

    open spec fn failure(&self, event: OrderEvent) -> Option<DispatchErrorView> {
        None
    }

    fn handle(&mut self, event: &OrderEvent) -> (r: Result<(), DispatchError>)
        ensures
            final(self)@ == count_event(old(self)@, *event),
            r is Ok,
    {
        match event {
            OrderEvent::New { .. } => {
                self.new_count = self.new_count.wrapping_add(1);
            },
            OrderEvent::Cancel { .. } => {
                self.cancel_count = self.cancel_count.wrapping_add(1);
            },
            OrderEvent::Trade { .. } => {
                self.trade_count = self.trade_count.wrapping_add(1);
            },
        }
        Ok(())
    }
}

impl MetricsHandler {
    /// Handling an event moves the counters by `count_event`.
    pub proof fn lemma_after_view(&self, event: OrderEvent)
        ensures
            self.after(event)@ == count_event(self@, event),
    {
    }
}

/// A handler after it has handled each of `events`, first to last.
pub open spec fn handle_all<H: Handler>(h: H, events: Seq<OrderEvent>) -> H
    decreases events.len(),
{
    if events.len() == 0 {
        h
    } else {
        handle_all(h, events.drop_last()).after(events.last())
    }
}

/// How many of `events` satisfy `p`.
pub open spec fn count_where(events: Seq<OrderEvent>, p: spec_fn(OrderEvent) -> bool) -> nat
    decreases events.len(),
{
    if events.len() == 0 {
        0
    } else {
        count_where(events.drop_last(), p) + if p(events.last()) {
            1nat
        } else {
            0nat
        }
    }
}

/// The counters of a fresh `MetricsHandler`.
pub open spec fn zero_snapshot() -> MetricsSnapshot {
    MetricsSnapshot { new_count: 0, cancel_count: 0, trade_count: 0 }
}

/// A count of events of each kind, taken with `count_where`.
pub open spec fn kinds_of(events: Seq<OrderEvent>) -> (nat, nat, nat) {
    (
        count_where(events, |e: OrderEvent| e is New),
        count_where(events, |e: OrderEvent| e is Cancel),
        count_where(events, |e: OrderEvent| e is Trade),
    )
}

/// `n` modulo 2^64, as a counter that wraps around past `u64::MAX` holds it.
pub open spec fn wrapped(n: nat) -> u64 {
    (n % 0x1_0000_0000_0000_0000) as u64
}

/// One more on a wrapping counter is one more on the count it wraps.
proof fn lemma_bump_wrapped(n: nat)
    ensures
        bump(wrapped(n)) == wrapped(n + 1),
{
    let m: int = 0x1_0000_0000_0000_0000;
    let x: int = n as int;
    vstd::arithmetic::div_mod::lemma_add_mod_noop(x, 1, m);
    vstd::arithmetic::div_mod::lemma_mod_bound(x, m);
    vstd::arithmetic::div_mod::lemma_mod_bound(x + 1, m);
    vstd::arithmetic::div_mod::lemma_small_mod(1, m as nat);
    let r: int = x % m;
    if r == m - 1 {
        vstd::arithmetic::div_mod::lemma_mod_self_0(m);
        assert((r + 1) % m == 0);
    } else {
        vstd::arithmetic::div_mod::lemma_small_mod((r + 1) as nat, m as nat);
        assert((r + 1) % m == r + 1);
    }
    assert((x + 1) % m == (r + 1) % m);
}

/// A metrics handler that starts from zero and handles `events` holds, for
/// each kind, the number of events of that kind, wrapped around past
/// `u64::MAX`; with fewer than 2^64 events of a kind that is the exact number.
pub proof fn law_metrics_count_each_kind(events: Seq<OrderEvent>)
    ensures
        forall|m: MetricsHandler|
            m@ == zero_snapshot() ==> #[trigger] handle_all(m, events)@ == (MetricsSnapshot {
                new_count: wrapped(kinds_of(events).0),
                cancel_count: wrapped(kinds_of(events).1),
                trade_count: wrapped(kinds_of(events).2),
            }),
    decreases events.len(),
{
    assert forall|m: MetricsHandler| m@ == zero_snapshot() implies #[trigger] handle_all(
        m,
        events,
    )@ == (MetricsSnapshot {
        new_count: wrapped(kinds_of(events).0),
        cancel_count: wrapped(kinds_of(events).1),
        trade_count: wrapped(kinds_of(events).2),
    }) by {
        if events.len() > 0 {
            let prefix = events.drop_last();
            law_metrics_count_each_kind(prefix);
            let before = handle_all(m, prefix);
            before.lemma_after_view(events.last());
            lemma_bump_wrapped(kinds_of(prefix).0);
            lemma_bump_wrapped(kinds_of(prefix).1);
            lemma_bump_wrapped(kinds_of(prefix).2);
        } else {
            assert(0nat % 0x1_0000_0000_0000_0000 == 0);
        }
    }
}

/// Taking one event out of a list takes its share out of a count.
proof fn lemma_count_where_remove(s: Seq<OrderEvent>, p: spec_fn(OrderEvent) -> bool, i: int)
    requires
        0 <= i < s.len(),
    ensures
        count_where(s, p) == count_where(s.remove(i), p) + if p(s[i]) {
            1nat
        } else {
            0nat
        },
    decreases s.len(),
{
    if i == s.len() - 1 {
        assert(s.remove(i) =~= s.drop_last());
    } else {
        lemma_count_where_remove(s.drop_last(), p, i);
        assert(s.drop_last().remove(i) =~= s.remove(i).drop_last());
        assert(s.remove(i).last() == s.last());
    }
}

/// A count does not depend on the order of the events.
pub proof fn lemma_count_where_permutation(
    s1: Seq<OrderEvent>,
    s2: Seq<OrderEvent>,
    p: spec_fn(OrderEvent) -> bool,
)
    requires
        s1.to_multiset() == s2.to_multiset(),
    ensures
        count_where(s1, p) == count_where(s2, p),
    decreases s1.len(),
{
    broadcast use vstd::seq_lib::group_to_multiset_ensures;
    broadcast use vstd::multiset::group_multiset_axioms;

    if s1.len() == 0 {
        assert(s1.to_multiset().len() == 0);
        assert(s2.to_multiset().len() == s2.len());
        assert(s2.len() == 0);
        assert(s2 =~= Seq::<OrderEvent>::empty());
    } else {
        let x = s1.last();
        let r1 = s1.drop_last();
        assert(s1 =~= r1.push(x));
        assert(s1.to_multiset() =~= r1.to_multiset().insert(x));
        assert(s2.to_multiset().count(x) > 0);
        assert(s2.contains(x));
        let i = choose|i: int| 0 <= i < s2.len() && s2[i] == x;
        assert(s2.remove(i).to_multiset() =~= r1.to_multiset());
        lemma_count_where_permutation(r1, s2.remove(i), p);
        lemma_count_where_remove(s2, p, i);
    }
}

/// The counters of a metrics handler that starts from zero do not depend on
/// the order in which it handles a given collection of events.
pub proof fn law_metrics_order_free(e1: Seq<OrderEvent>, e2: Seq<OrderEvent>)
    requires
        e1.to_multiset() == e2.to_multiset(),
    ensures
        forall|m: MetricsHandler|
            m@ == zero_snapshot() ==> #[trigger] handle_all(m, e1)@ == handle_all(m, e2)@,
{
    law_metrics_count_each_kind(e1);
    law_metrics_count_each_kind(e2);
    lemma_count_where_permutation(e1, e2, |e: OrderEvent| e is New);
    lemma_count_where_permutation(e1, e2, |e: OrderEvent| e is Cancel);
    lemma_count_where_permutation(e1, e2, |e: OrderEvent| e is Trade);
}

/// One of the handlers of this library, so that a dispatcher can serve a
/// mixed list of them.
pub enum AnyHandler {
    Logging(LoggingHandler),
    Metrics(MetricsHandler),
    Failing(FailingHandler),
}

impl Handler for AnyHandler {
    open spec fn after(&self, event: OrderEvent) -> Self {
        match self {
            AnyHandler::Logging(h) => AnyHandler::Logging(h.after(event)),
            AnyHandler::Metrics(h) => AnyHandler::Metrics(h.after(event)),
            AnyHandler::Failing(h) => AnyHandler::Failing(h.after(event)),
        }
    }

    open spec fn failure(&self, event: OrderEvent) -> Option<DispatchErrorView> {
        match self {
            AnyHandler::Logging(h) => h.failure(event),
            AnyHandler::Metrics(h) => h.failure(event),
            AnyHandler::Failing(h) => h.failure(event),
        }
    }

    fn handle(&mut self, event: &OrderEvent) -> (r: Result<(), DispatchError>) {
        match self {
            AnyHandler::Logging(h) => h.handle(event),
            AnyHandler::Metrics(h) => h.handle(event),
            AnyHandler::Failing(h) => h.handle(event),
        }
    }
}

/// How many logging handlers a list holds.
pub open spec fn logging_count(hs: Seq<AnyHandler>) -> nat
    decreases hs.len(),
{
    if hs.len() == 0 {
        0
    } else {
        logging_count(hs.drop_last()) + if hs.last() is Logging {
            1nat
        } else {
            0nat
        }
    }
}

/// The number of logging handlers is the number of entries of the list that
/// are `Logging`: no other kind of handler counts.
pub proof fn law_logging_count_by_variant(hs: Seq<AnyHandler>)
    ensures
        logging_count(hs) == hs.filter(|h: AnyHandler| h is Logging).len(),
    decreases hs.len(),
{
    reveal_with_fuel(Seq::filter, 1);
    if hs.len() > 0 {
        law_logging_count_by_variant(hs.drop_last());
    }
}

/// The log lines that the logging handlers of `handlers` write for `event`:
/// one per logging handler, in list order.
pub(crate) fn log_records(handlers: &Vec<AnyHandler>, event: &OrderEvent) -> (r: Vec<LogRecord>)
    ensures
        r@.len() == logging_count(handlers@),
        r@.len() == handlers@.filter(|h: AnyHandler| h is Logging).len(),
        forall|k: int| 0 <= k < r@.len() ==> record_fits(#[trigger] r@[k], *event),
{
    proof {
        law_logging_count_by_variant(handlers@);
    }
    let mut r: Vec<LogRecord> = Vec::new();
    let n = handlers.len();
    for i in 0..n
        invariant
            n == handlers@.len(),
            r@.len() == logging_count(handlers@.take(i as int)),
            forall|k: int| 0 <= k < r@.len() ==> record_fits(#[trigger] r@[k], *event),
    {
        assert(handlers@.take(i + 1).drop_last() =~= handlers@.take(i as int));
        match &handlers[i] {
            AnyHandler::Logging(h) => {
                r.push(h.record(event));
            },
            _ => {},
        }
    }
    assert(handlers@.take(n as int) =~= handlers@);
    r
}

/// The text of the error that a `FailingHandler` reports for an order.
pub open spec fn deliberate_failure_text(id: u64) -> Seq<char> {
    "deliberate failure for order "@ + decimal(id as nat)
}

/// A handler that fails on every order whose id is a multiple of its divisor.
pub struct FailingHandler {
    fail_divisor: u64,
}

impl FailingHandler {
    #[verifier::type_invariant]
    spec fn divisor_is_positive(self) -> bool {
        self.fail_divisor > 0
    }

    /// The divisor that decides which orders fail.
    pub closed spec fn divisor(self) -> u64 {
        self.fail_divisor
    }

    /// A handler failing on the orders whose id is a multiple of `fail_divisor`.
    pub fn new(fail_divisor: u64) -> (r: Self)
        requires
            fail_divisor > 0,
        ensures
            r.divisor() == fail_divisor,
    {
        FailingHandler { fail_divisor }
    }

    /// The divisor that decides which orders fail.
    pub fn fail_divisor(&self) -> (r: u64)
        ensures
            r == self.divisor(),
            r > 0,
    {
        proof {
            use_type_invariant(self);
        }
        self.fail_divisor
    }
}

impl Handler for FailingHandler {
    open spec fn after(&self, event: OrderEvent) -> Self {
        *self
    }

    open spec fn failure(&self, event: OrderEvent) -> Option<DispatchErrorView> {
        if self.divisor() != 0 && event.id() % self.divisor() == 0 {
            Some(DispatchErrorView::HandlerFailed(deliberate_failure_text(event.id())))
        } else {
            None
        }
    }

    fn handle(&mut self, event: &OrderEvent) -> (r: Result<(), DispatchError>) {
        let d = self.fail_divisor();
        let id = event.order_id();
        if id % d == 0 {
            let mut msg = String::from_str("deliberate failure for order ");
            let digits = decimal_text(id);
            msg.append(digits.as_str());
            return Err(DispatchError::HandlerFailed(msg));
        }
        Ok(())
    }
}

} // verus!
