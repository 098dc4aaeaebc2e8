//! The hand-written delay future and the future that a compiler would make
//! of an `async` block awaiting it, as state machines over clock readings.
//!
//! Instants are nanoseconds since an origin that the caller picks and keeps.

use vstd::prelude::*;

verus! {

/// Ten milliseconds in nanoseconds: how long `MainFuture` waits.
pub const TEN_MILLIS: u64 = 10_000_000;

/// A future that is ready once the clock reaches `when`.
#[derive(Clone, Copy, Debug, PartialEq, Eq)]
pub struct Delay {
    pub when: u64,
}

impl Delay {
    /// A delay that ends `dur` after `now`.
    pub fn after(now: u64, dur: u64) -> (d: Delay)
        requires
            now + dur <= u64::MAX,
        ensures
            d.when == now + dur,
    {
        Delay { when: now + dur }
    }

    /// One poll at clock reading `now`: `Some("done")` once the deadline is
    /// reached, `None` (pending) before.
    pub fn poll(&self, now: u64) -> (r: Option<&'static str>)
        ensures
            r is Some <==> now >= self.when,
            r matches Some(out) ==> out@ == "done"@,
    {
        if now >= self.when {
            Some("done")
        } else {
            None
        }
    }
}

/// How long a timer thread that reads the clock at `now` sleeps before it
/// wakes the task waiting for `when`: nothing once the deadline has passed.
pub fn sleep_needed(now: u64, when: u64) -> (r: Option<u64>)
    ensures
        now < when ==> r == Some((when - now) as u64),
        now >= when ==> r is None,
{
    if now < when {
        Some(when - now)
    } else {
        None
    }
}

/// The states of the future of an `async` block that creates a `Delay` of
/// ten milliseconds and awaits it.
#[derive(Clone, Copy, Debug, PartialEq, Eq)]
pub enum MainFuture {
    /// Created, never polled.
    State0,
    /// Waiting on the delay.
    State1(Delay),
    /// Completed.
    Terminated,
}

/// What one turn of the poll loop of `MainFuture` ends with.
#[derive(Clone, Copy, Debug, PartialEq, Eq)]
pub enum MainStep {
    /// The state moved on: read the clock and turn again.
    Continue,
    /// The delay is not over: the poll returns pending.
    Pending,
    /// The delay is over: the poll returns ready.
    Ready,
}

/// One turn of the poll loop, as a function of the state and a clock reading.
pub open spec fn main_step(s: MainFuture, now: u64) -> (MainFuture, MainStep) {
    match s {
        MainFuture::State0 => (MainFuture::State1(Delay { when: (now + TEN_MILLIS) as u64 }), MainStep::Continue),
        MainFuture::State1(d) => if now >= d.when {
            (MainFuture::Terminated, MainStep::Ready)
        } else {
            (s, MainStep::Pending)
        },
        MainFuture::Terminated => (s, MainStep::Pending),
    }
}

impl MainFuture {
    /// One turn of the poll loop at clock reading `now`. The first turn
    /// starts a delay of ten milliseconds; a later one polls it, and
    /// completes the future when it is over. A completed future must not be
    /// polled again.
    pub fn step(&mut self, now: u64) -> (r: MainStep)
        requires
            !(*old(self) matches MainFuture::Terminated),
            *old(self) matches MainFuture::State0 ==> now + TEN_MILLIS <= u64::MAX,
        ensures
            (*final(self), r) == main_step(*old(self), now),
    {
        match *self {
            MainFuture::State0 => {
                let future = Delay::after(now, TEN_MILLIS);
                *self = MainFuture::State1(future);
                MainStep::Continue
            },
            MainFuture::State1(future) => {
                match future.poll(now) {
                    Some(_out) => {
                        *self = MainFuture::Terminated;
                        MainStep::Ready
                    },
                    None => MainStep::Pending,
                }
            },
            MainFuture::Terminated => vstd::pervasive::unreached(),
        }
    }
}

/// The state after turns of the poll loop at the given clock readings.
pub open spec fn main_run(s: MainFuture, nows: Seq<u64>) -> MainFuture
    decreases nows.len(),
{
    if nows.len() == 0 {
        s
    } else {
        main_run(main_step(s, nows[0]).0, nows.drop_first())
    }
}

/// A `MainFuture` first polled at `t0` waits exactly ten milliseconds:
/// through any turns whose readings come before `t0 + 10ms` it keeps waiting
/// on that deadline, and the next turn completes it exactly when its reading
/// has reached the deadline.
pub proof fn lemma_waits_ten_millis(t0: u64, later: Seq<u64>, t: u64)
    requires
        t0 + TEN_MILLIS <= u64::MAX,
        forall|i: int| 0 <= i < later.len() ==> #[trigger] later[i] < t0 + TEN_MILLIS,
    ensures
        main_run(MainFuture::State0, seq![t0] + later)
            == MainFuture::State1(Delay { when: (t0 + TEN_MILLIS) as u64 }),
        main_step(main_run(MainFuture::State0, seq![t0] + later), t)
            == (if t >= t0 + TEN_MILLIS {
                (MainFuture::Terminated, MainStep::Ready)
            } else {
                (MainFuture::State1(Delay { when: (t0 + TEN_MILLIS) as u64 }), MainStep::Pending)
            }),
{
    let waiting = MainFuture::State1(Delay { when: (t0 + TEN_MILLIS) as u64 });
    assert((seq![t0] + later).drop_first() =~= later);
    lemma_pending_run(waiting, later);
}

/// Turns whose readings all come before the deadline leave a waiting
/// future as it is.
proof fn lemma_pending_run(s: MainFuture, nows: Seq<u64>)
    requires
        s matches MainFuture::State1(d) && forall|i: int| 0 <= i < nows.len() ==> #[trigger] nows[i] < d.when,
    ensures
        main_run(s, nows) == s,
    decreases nows.len(),
{
    if nows.len() > 0 {
        assert(nows[0] < s->State1_0.when);
        lemma_pending_run(s, nows.drop_first());
    }
}

/// How far the future has come: created, waiting, completed.
pub open spec fn stage(s: MainFuture) -> nat {
    match s {
        MainFuture::State0 => 0,
        MainFuture::State1(_) => 1,
        MainFuture::Terminated => 2,
    }
}

/// A turn never moves the future back, keeps the deadline of a waiting
/// future while it waits, and is ready only on the move from waiting to
/// completed.
pub proof fn lemma_step_moves_forward(s: MainFuture, now: u64)
    ensures
        stage(main_step(s, now).0) >= stage(s),
        s matches MainFuture::State1(d) ==> (main_step(s, now).0 == s || main_step(s, now).0 == MainFuture::Terminated),
        main_step(s, now).1 == MainStep::Ready ==> {
            &&& s matches MainFuture::State1(_)
            &&& main_step(s, now).0 == MainFuture::Terminated
        },
{
}

/// The number of turns, at the given readings, that end ready.
pub open spec fn ready_count(s: MainFuture, nows: Seq<u64>) -> nat
    decreases nows.len(),
{
    if nows.len() == 0 {
        0
    } else {
        let (next, out) = main_step(s, nows[0]);
        let rest = ready_count(next, nows.drop_first());
        if out == MainStep::Ready {
            rest + 1
        } else {
            rest
        }
    }
}

/// Whatever the clock readings, the future is ready at most once, and a
/// completed future is never ready again.
pub proof fn lemma_ready_at_most_once(s: MainFuture, nows: Seq<u64>)
    ensures
        ready_count(s, nows) <= 1,
        s == MainFuture::Terminated ==> ready_count(s, nows) == 0,
    decreases nows.len(),
{
    if nows.len() > 0 {
        let (next, out) = main_step(s, nows[0]);
        lemma_ready_at_most_once(next, nows.drop_first());
    }
}

} // verus!
