//! A stream that yields a fixed number of items, ten milliseconds apart,
//! built on a delay future that registers its waker with a timer thread.
//!
//! Instants are nanoseconds since an origin that the caller picks and keeps.

use vstd::prelude::*;
use crate::delay::TEN_MILLIS;

verus! {

/// What a poll of the delay does with the task's waker.
#[derive(Clone, Copy, Debug, PartialEq, Eq)]
pub enum WakerAction {
    /// First poll: store the waker and spawn the thread that wakes it at the
    /// deadline.
    SpawnTimer,
    /// The stored waker would not wake the polling task: replace it.
    Replace,
    /// The stored waker is still the right one.
    Keep,
}

/// The waker half of a poll of a delay, given whether it has registered a
/// waker and whether the stored waker would wake the polling task: whether
/// it has one afterwards, and what it does.
pub open spec fn register_next(registered: bool, same_waker: bool) -> (bool, WakerAction) {
    if !registered {
        (true, WakerAction::SpawnTimer)
    } else if same_waker {
        (true, WakerAction::Keep)
    } else {
        (true, WakerAction::Replace)
    }
}

/// A delay whose first poll hands its waker to a timer thread.
#[derive(Clone, Copy, Debug, PartialEq, Eq)]
pub struct Delay {
    /// The deadline.
    pub when: u64,
    /// Whether a waker was stored and a timer thread spawned.
    pub waker_registered: bool,
}

impl Delay {
    /// A delay for `when` that has not been polled.
    pub fn new(when: u64) -> (d: Delay)
        ensures
            d.when == when,
            !d.waker_registered,
    {
        Delay { when, waker_registered: false }
    }

    /// The waker half of a poll. `same_waker` tells whether the stored waker
    /// would wake the polling task.
    pub fn register_waker(&mut self, same_waker: bool) -> (a: WakerAction)
        ensures
            final(self).when == old(self).when,
            (final(self).waker_registered, a) == register_next(old(self).waker_registered, same_waker),
    {
        if self.waker_registered {
            if !same_waker {
                WakerAction::Replace
            } else {
                WakerAction::Keep
            }
        } else {
            self.waker_registered = true;
            WakerAction::SpawnTimer
        }
    }

    /// The clock half of a poll: ready once the deadline is reached.
    pub fn is_ready(&self, now: u64) -> (ready: bool)
        ensures
            ready == (now >= self.when),
    {
        now >= self.when
    }
}

/// What a poll of a stream gives.
#[derive(Clone, Copy, Debug, PartialEq, Eq)]
pub enum StreamPoll {
    /// An item.
    Item,
    /// The end of the stream.
    Done,
    /// Nothing yet.
    Pending,
}

/// A stream of `rem` more items; the next one comes when `delay` is over.
#[derive(Clone, Copy, Debug, PartialEq, Eq)]
pub struct Interval {
    pub rem: usize,
    pub delay: Delay,
}

/// The state of an interval as plain numbers: items left, next deadline,
/// and whether the current delay has registered a waker.
pub type IntervalView = (nat, nat, bool);

impl View for Interval {
    type V = IntervalView;

    open spec fn view(&self) -> IntervalView {
        (self.rem as nat, self.delay.when as nat, self.delay.waker_registered)
    }
}

/// One poll of an interval, given whether its delay turned out ready (the
/// delay is polled only while items are left). Each item moves the deadline
/// on by ten milliseconds and starts a fresh delay.
pub open spec fn interval_next(s: IntervalView, delay_ready: bool) -> (IntervalView, StreamPoll) {
    if s.0 == 0 {
        (s, StreamPoll::Done)
    } else if delay_ready {
        (((s.0 - 1) as nat, s.1 + (TEN_MILLIS as nat), false), StreamPoll::Item)
    } else {
        (s, StreamPoll::Pending)
    }
}

impl Interval {
    /// An interval of `rem` items whose first comes at `when`.
    pub fn new(rem: usize, when: u64) -> (i: Interval)
        ensures
            i@ == (rem as nat, when as nat, false),
    {
        Interval { rem, delay: Delay::new(when) }
    }

    /// Whether no item is left; the delay is polled only when some are.
    pub fn is_exhausted(&self) -> (done: bool)
        ensures
            done == (self.rem == 0),
    {
        self.rem == 0
    }

    /// One poll of the stream, given the outcome of polling its delay (or
    /// `false` when the delay was not polled).
    pub fn poll_next(&mut self, delay_ready: bool) -> (r: StreamPoll)
        requires
            old(self).rem > 0 && delay_ready ==> old(self).delay.when + TEN_MILLIS <= u64::MAX,
        ensures
            (final(self)@, r) == interval_next(old(self)@, delay_ready),
    {
        if self.rem == 0 {
            // No more delays
            return StreamPoll::Done;
        }
        if delay_ready {
            let when = self.delay.when + TEN_MILLIS;
            self.delay = Delay::new(when);
            self.rem -= 1;
            StreamPoll::Item
        } else {
            StreamPoll::Pending
        }
    }
}

/// The state after a sequence of polls with the given delay outcomes, and
/// the number of items they gave.
pub open spec fn interval_run(s: IntervalView, outcomes: Seq<bool>) -> (IntervalView, nat)
    decreases outcomes.len(),
{
    if outcomes.len() == 0 {
        (s, 0)
    } else {
        let (next, out) = interval_next(s, outcomes[0]);
        let (last, n) = interval_run(next, outcomes.drop_first());
        (last, if out == StreamPoll::Item { n + 1 } else { n })
    }
}

/// Whatever the delays do, an interval never gives more items than it has
/// left: every item given is one fewer left, and each moves the deadline on
/// by exactly ten milliseconds.
pub proof fn lemma_interval_counts_items(s: IntervalView, outcomes: Seq<bool>)
    ensures
        interval_run(s, outcomes).1 + interval_run(s, outcomes).0.0 == s.0,
        interval_run(s, outcomes).0.1 == s.1 + interval_run(s, outcomes).1 * TEN_MILLIS,
    decreases outcomes.len(),
{
    if outcomes.len() > 0 {
        let (next, out) = interval_next(s, outcomes[0]);
        lemma_interval_counts_items(next, outcomes.drop_first());
        let n = interval_run(next, outcomes.drop_first()).1;
        assert(next.1 + n * TEN_MILLIS
            == s.1 + (if out == StreamPoll::Item { n + 1 } else { n }) * TEN_MILLIS) by (nonlinear_arith)
            requires
                out == StreamPoll::Item ==> next.1 == s.1 + TEN_MILLIS,
                out != StreamPoll::Item ==> next.1 == s.1;
    }
}

/// What one poll of an interval does: the stream ends exactly when no item
/// is left, and then nothing changes; with items left, a delay that is not
/// over gives nothing and changes nothing, and one that is over gives an
/// item, leaves one item fewer, moves the deadline on by ten milliseconds
/// and starts a delay that has registered no waker.
pub proof fn lemma_interval_poll(s: IntervalView, delay_ready: bool)
    ensures
        (interval_next(s, delay_ready).1 == StreamPoll::Done) <==> s.0 == 0,
        s.0 == 0 ==> interval_next(s, delay_ready).0 == s,
        s.0 > 0 && !delay_ready ==> interval_next(s, delay_ready) == (s, StreamPoll::Pending),
        s.0 > 0 && delay_ready ==> {
            let (next, out) = interval_next(s, delay_ready);
            &&& out == StreamPoll::Item
            &&& next.0 + 1 == s.0
            &&& next.1 == s.1 + TEN_MILLIS
            &&& !next.2
        },
{
}

/// Polls of an interval with `n` items whose delays are all over give `n`
/// items and only then end the stream.
pub proof fn lemma_interval_gives_every_item(s: IntervalView, outcomes: Seq<bool>)
    requires
        forall|i: int| 0 <= i < outcomes.len() ==> #[trigger] outcomes[i],
        outcomes.len() <= s.0,
    ensures
        interval_run(s, outcomes).1 == outcomes.len(),
        interval_run(s, outcomes).0.0 == s.0 - outcomes.len(),
    decreases outcomes.len(),
{
    if outcomes.len() > 0 {
        assert(outcomes[0]);
        let next = interval_next(s, outcomes[0]).0;
        lemma_interval_gives_every_item(next, outcomes.drop_first());
    }
}

/// Once an interval has given its last item, every later poll ends the
/// stream and changes nothing.
pub proof fn lemma_exhausted_stays_done(s: IntervalView, delay_ready: bool)
    requires
        s.0 == 0,
    ensures
        interval_next(s, delay_ready) == (s, StreamPoll::Done),
{
}

/// Polls whose delays are all ready give exactly the items left, and then
/// the end of the stream.
pub proof fn lemma_ready_delays_drain(s: IntervalView, outcomes: Seq<bool>)
    requires
        outcomes.len() >= s.0,
        forall|i: int| 0 <= i < outcomes.len() ==> #[trigger] outcomes[i],
    ensures
        interval_run(s, outcomes).1 == s.0,
        interval_run(s, outcomes).0.0 == 0,
    decreases outcomes.len(),
{
    lemma_interval_counts_items(s, outcomes);
    if outcomes.len() > 0 {
        let next = interval_next(s, outcomes[0]).0;
        assert(outcomes[0]);
        lemma_ready_delays_drain(next, outcomes.drop_first());
    }
}

/// What the waker half of a poll does: the first poll of a delay spawns the
/// timer thread, later ones keep the stored waker when it would wake the
/// polling task and replace it otherwise; after any poll a waker is stored.
pub proof fn lemma_register_decision(registered: bool, same_waker: bool)
    ensures
        register_next(registered, same_waker).0,
        !registered ==> register_next(registered, same_waker).1 == WakerAction::SpawnTimer,
        registered && same_waker ==> register_next(registered, same_waker).1 == WakerAction::Keep,
        registered && !same_waker ==> register_next(registered, same_waker).1 == WakerAction::Replace,
{
}

/// The number of timer threads that polls of a delay spawn, given for each
/// poll whether the stored waker would wake the polling task.
pub open spec fn timers_spawned(registered: bool, same_wakers: Seq<bool>) -> nat
    decreases same_wakers.len(),
{
    if same_wakers.len() == 0 {
        0
    } else {
        let (next, action) = register_next(registered, same_wakers[0]);
        let rest = timers_spawned(next, same_wakers.drop_first());
        if action == WakerAction::SpawnTimer {
            rest + 1
        } else {
            rest
        }
    }
}

/// However many times a fresh delay is polled, and with whatever wakers, it
/// spawns exactly one timer thread, at its first poll.
pub proof fn lemma_one_timer_per_delay(same_wakers: Seq<bool>)
    requires
        same_wakers.len() >= 1,
    ensures
        timers_spawned(false, same_wakers) == 1,
{
    lemma_registered_spawns_none(same_wakers.drop_first());
}

/// A delay that has registered its waker spawns no more timer threads.
proof fn lemma_registered_spawns_none(same_wakers: Seq<bool>)
    ensures
        timers_spawned(true, same_wakers) == 0,
    decreases same_wakers.len(),
{
    if same_wakers.len() > 0 {
        lemma_registered_spawns_none(same_wakers.drop_first());
    }
}

/// The clock readings of a run of polls at which items were given: each
/// poll reads the clock once, and polls the delay only while items are left.
pub open spec fn item_times(s: IntervalView, nows: Seq<u64>) -> Seq<u64>
    decreases nows.len(),
{
    if nows.len() == 0 {
        Seq::empty()
    } else {
        let (next, out) = interval_next(s, s.0 > 0 && nows[0] >= s.1);
        let rest = item_times(next, nows.drop_first());
        if out == StreamPoll::Item {
            seq![nows[0]] + rest
        } else {
            rest
        }
    }
}

/// The state after a run of polls at the given clock readings.
pub open spec fn interval_run_at(s: IntervalView, nows: Seq<u64>) -> IntervalView
    decreases nows.len(),
{
    if nows.len() == 0 {
        s
    } else {
        interval_run_at(interval_next(s, s.0 > 0 && nows[0] >= s.1).0, nows.drop_first())
    }
}

/// An interval whose next deadline is `s.1` gives its `k`-th item (counting
/// from zero) no earlier than `s.1 + k * 10ms`, and never more items than it
/// has left.
pub proof fn lemma_items_on_time(s: IntervalView, nows: Seq<u64>)
    ensures
        item_times(s, nows).len() + interval_run_at(s, nows).0 == s.0,
        forall|k: int| 0 <= k < item_times(s, nows).len()
            ==> #[trigger] item_times(s, nows)[k] >= s.1 + k * TEN_MILLIS,
    decreases nows.len(),
{
    if nows.len() > 0 {
        let (next, out) = interval_next(s, s.0 > 0 && nows[0] >= s.1);
        let rest = nows.drop_first();
        lemma_items_on_time(next, rest);
        let times = item_times(s, nows);
        let later = item_times(next, rest);
        if out == StreamPoll::Item {
            assert forall|k: int| 0 <= k < times.len() implies #[trigger] times[k] >= s.1 + k * TEN_MILLIS by {
                if k > 0 {
                    assert(times[k] == later[k - 1]);
                    assert(later[k - 1] >= next.1 + (k - 1) * TEN_MILLIS);
                    assert(next.1 + (k - 1) * TEN_MILLIS == s.1 + k * TEN_MILLIS) by (nonlinear_arith)
                        requires next.1 == s.1 + TEN_MILLIS;
                }
            }
        }
    }
}

/// Number of items of the interval built with the `stream!` macro.
pub const MACRO_ITEMS: u32 = 3;

/// The loop of the interval built with the `stream!` macro, after `count`
/// items with the next deadline `when`: `None` ends the stream; otherwise
/// wait for `when`, give an item, and go on with the returned state, whose
/// deadline is ten milliseconds later.
pub fn macro_interval_next(count: u32, when: u64) -> (r: Option<(u32, u64)>)
    requires
        count < MACRO_ITEMS ==> when + TEN_MILLIS <= u64::MAX,
    ensures
        count < MACRO_ITEMS ==> r == Some(((count + 1) as u32, (when + TEN_MILLIS) as u64)),
        count >= MACRO_ITEMS ==> r is None,
{
    if count < MACRO_ITEMS {
        Some((count + 1, when + TEN_MILLIS))
    } else {
        None
    }
}

} // verus!
