use vstd::prelude::*;

verus! {

/// How long the main future waits, in nanoseconds of the caller's clock.
pub const MAIN_DELAY_NANOS: u64 = 10_000_000;

/// A timer that is done once the clock reaches `when` (nanoseconds on a
/// monotonic clock that the caller reads).
#[derive(Debug, Clone, Copy, PartialEq, Eq, Structural)]
pub struct Delay {
    pub when: u64,
}

/// The outcome of polling a timer at a given time.
#[derive(Debug, Clone, Copy, PartialEq, Eq, Structural)]
pub enum DelayPoll {
    /// Done, with the output `"done"`.
    Ready,
    /// Not yet: the caller is to arrange a wake-up at this time.
    WakeAt(u64),
}

/// The timer's answer at time `now`.
pub open spec fn delay_poll(d: Delay, now: u64) -> DelayPoll {
    if now >= d.when {
        DelayPoll::Ready
    } else {
        DelayPoll::WakeAt(d.when)
    }
}

impl Delay {
    /// Polls the timer at time `now`: ready once `now` has reached `when`,
    /// otherwise a wake-up is due at `when`.
    pub fn poll_at(&self, now: u64) -> (r: DelayPoll)
        ensures
            r == delay_poll(*self, now),
    {
        if now >= self.when {
            DelayPoll::Ready
        } else {
            DelayPoll::WakeAt(self.when)
        }
    }

    /// The output of a finished timer.
    pub fn output() -> (r: &'static str)
        ensures
            r@ == "done"@,
    {
        "done"
    }
}

/// The hand-written state machine of an `async` block that awaits one timer:
/// not started, waiting on the timer, or finished.
#[derive(Debug, Clone, Copy, PartialEq, Eq, Structural)]
pub enum MainFuture {
    State0,
    State1(Delay),
    Terminated,
}

/// The outcome of polling the main future.
#[derive(Debug, Clone, Copy, PartialEq, Eq, Structural)]
pub enum MainPoll {
    Ready,
    /// Not yet: the caller is to arrange a wake-up at this time.
    Pending { wake_at: u64 },
}

/// The state and answer after polling a state other than `Terminated`: the
/// poll starts when the clock reads `start`, and the timer it waits on reads
/// the clock again, at `timer_now`.
pub open spec fn main_step(state: MainFuture, start: u64, timer_now: u64) -> (MainFuture, MainPoll) {
    let waiting = match state {
        MainFuture::State0 => Delay { when: (start + MAIN_DELAY_NANOS) as u64 },
        MainFuture::State1(d) => d,
        MainFuture::Terminated => Delay { when: 0 },
    };
    match delay_poll(waiting, timer_now) {
        DelayPoll::Ready => (MainFuture::Terminated, MainPoll::Ready),
        DelayPoll::WakeAt(t) => (MainFuture::State1(waiting), MainPoll::Pending { wake_at: t }),
    }
}

impl MainFuture {
    /// Polls once. The poll starts when the clock reads `start`; from
    /// `State0` it starts a timer that ends `MAIN_DELAY_NANOS` after `start`.
    /// It then polls its timer, which reads the clock at `timer_now`; when
    /// the timer is done it finishes with `Ready`. A finished future is not
    /// to be polled again.
    pub fn poll_at(&mut self, start: u64, timer_now: u64) -> (r: MainPoll)
        requires
            !(*old(self) is Terminated),
            *old(self) is State0 ==> start + MAIN_DELAY_NANOS <= u64::MAX,
        ensures
            (*final(self), r) == main_step(*old(self), start, timer_now),
    {
        loop
            invariant
                !(*self is Terminated),
                *self is State0 ==> *self == *old(self) && start + MAIN_DELAY_NANOS <= u64::MAX,
                *self is State1 ==> (*self == *old(self) || (*old(self) is State0 && *self
                    == MainFuture::State1(Delay { when: (start + MAIN_DELAY_NANOS) as u64 }))),
            decreases (if *self is State0 { 1nat } else { 0nat }),
        {
            match *self {
                MainFuture::State0 => {
                    let future = Delay { when: start + MAIN_DELAY_NANOS };
                    *self = MainFuture::State1(future);
                },
                MainFuture::State1(my_future) => {
                    match my_future.poll_at(timer_now) {
                        DelayPoll::Ready => {
                            *self = MainFuture::Terminated;
                            return MainPoll::Ready;
                        },
                        DelayPoll::WakeAt(t) => {
                            return MainPoll::Pending { wake_at: t };
                        },
                    }
                },
                MainFuture::Terminated => {
                    proof {
                        assert(false);
                    }
                    return MainPoll::Ready;
                },
            }
        }
    }
}

/// The first poll sets the timer `MAIN_DELAY_NANOS` after its start and
/// polls it at once: it answers `Ready` and finishes when the timer's own
/// reading of the clock has already reached that time, and otherwise waits on
/// the timer and asks to be woken at its end.
pub proof fn law_first_poll(start: u64, timer_now: u64)
    requires
        start + MAIN_DELAY_NANOS <= u64::MAX,
    ensures
        timer_now >= start + MAIN_DELAY_NANOS ==> main_step(MainFuture::State0, start, timer_now)
            == (MainFuture::Terminated, MainPoll::Ready),
        timer_now < start + MAIN_DELAY_NANOS ==> main_step(MainFuture::State0, start, timer_now)
            == (
            MainFuture::State1(Delay { when: (start + MAIN_DELAY_NANOS) as u64 }),
            MainPoll::Pending { wake_at: (start + MAIN_DELAY_NANOS) as u64 },
        ),
{
}

/// The state after a run of polls, each given as its two clock readings
/// (`start`, `timer_now`).
pub open spec fn state_after(state: MainFuture, polls: Seq<(u64, u64)>) -> MainFuture
    decreases polls.len(),
{
    if polls.len() == 0 {
        state
    } else {
        main_step(state_after(state, polls.drop_last()), polls.last().0, polls.last().1).0
    }
}

/// The answer of the last of a non-empty run of polls.
pub open spec fn last_answer(state: MainFuture, polls: Seq<(u64, u64)>) -> MainPoll {
    main_step(state_after(state, polls.drop_last()), polls.last().0, polls.last().1).1
}

/// A run of polls of one future from `State0`, in which a finished future is
/// never polled again: each poll answers `Ready` exactly when it leaves the
/// future finished and `Pending` exactly when it leaves it waiting; the
/// future never goes back to `State0`; it waits on the one timer set by the
/// first poll, `MAIN_DELAY_NANOS` after that poll's start; and only the last
/// poll can answer `Ready`, so `Ready` comes at most once.
pub proof fn law_main_polls(polls: Seq<(u64, u64)>, i: int)
    requires
        polls.len() > 0,
        polls[0].0 + MAIN_DELAY_NANOS <= u64::MAX,
        forall|j: int|
            0 <= j < polls.len() ==> !(#[trigger] state_after(MainFuture::State0, polls.take(j))
                is Terminated),
        1 <= i <= polls.len(),
    ensures
        last_answer(MainFuture::State0, polls.take(i)) is Ready <==> state_after(
            MainFuture::State0,
            polls.take(i),
        ) is Terminated,
        last_answer(MainFuture::State0, polls.take(i)) is Pending <==> state_after(
            MainFuture::State0,
            polls.take(i),
        ) is State1,
        !(state_after(MainFuture::State0, polls.take(i)) is State0),
        state_after(MainFuture::State0, polls.take(i)) is State1 ==> state_after(
            MainFuture::State0,
            polls.take(i),
        ) == MainFuture::State1(Delay { when: (polls[0].0 + MAIN_DELAY_NANOS) as u64 }),
        i < polls.len() ==> last_answer(MainFuture::State0, polls.take(i)) is Pending,
    decreases i,
{
    let pre = polls.take(i).drop_last();
    assert(pre =~= polls.take(i - 1));
    assert(polls.take(i).last() == polls[i - 1]);
    if i > 1 {
        law_main_polls(polls, i - 1);
        assert(polls.take(i - 1).drop_last() =~= polls.take(i - 2));
    } else {
        assert(pre =~= Seq::<(u64, u64)>::empty());
    }
    assert(!(state_after(MainFuture::State0, polls.take(i - 1)) is Terminated));
    if i < polls.len() {
        assert(!(state_after(MainFuture::State0, polls.take(i)) is Terminated));
    }
}

} // verus!
