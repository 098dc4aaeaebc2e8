use my_redis::delay::{sleep_needed, Delay, MainFuture, MainStep, TEN_MILLIS};
use my_redis::interval::{Delay as WakingDelay, Interval, StreamPoll, WakerAction};

#[test]
fn delay_is_ready_from_its_deadline_on() {
    let d = Delay::after(1_000, 500);
    assert_eq!(d.when, 1_500);
    assert_eq!(d.poll(1_499), None);
    assert_eq!(d.poll(1_500), Some("done"));
    assert_eq!(d.poll(9_999), Some("done"));
}

#[test]
fn timer_sleeps_only_before_the_deadline() {
    assert_eq!(sleep_needed(10, 25), Some(15));
    assert_eq!(sleep_needed(25, 25), None);
    assert_eq!(sleep_needed(30, 25), None);
}

#[test]
fn main_future_waits_ten_millis_then_completes() {
    let mut f = MainFuture::State0;
    assert_eq!(f.step(100), MainStep::Continue);
    assert_eq!(f, MainFuture::State1(Delay { when: 100 + TEN_MILLIS }));
    assert_eq!(f.step(200), MainStep::Pending);
    assert_eq!(f.step(100 + TEN_MILLIS - 1), MainStep::Pending);
    assert_eq!(f.step(100 + TEN_MILLIS), MainStep::Ready);
    assert_eq!(f, MainFuture::Terminated);
}

#[test]
fn waking_delay_spawns_one_timer_then_keeps_or_replaces_the_waker() {
    let mut d = WakingDelay::new(50);
    assert!(!d.waker_registered);
    assert_eq!(d.register_waker(true), WakerAction::SpawnTimer);
    assert!(d.waker_registered);
    assert_eq!(d.register_waker(true), WakerAction::Keep);
    assert_eq!(d.register_waker(false), WakerAction::Replace);
    assert!(!d.is_ready(49));
    assert!(d.is_ready(50));
}

#[test]
fn interval_yields_its_items_ten_millis_apart_then_ends() {
    let mut i = Interval::new(3, 5);
    assert!(!i.is_exhausted());
    assert_eq!(i.poll_next(false), StreamPoll::Pending);
    assert_eq!(i.poll_next(true), StreamPoll::Item);
    assert_eq!(i.delay.when, 5 + TEN_MILLIS);
    assert!(!i.delay.waker_registered);
    assert_eq!(i.poll_next(true), StreamPoll::Item);
    assert_eq!(i.poll_next(true), StreamPoll::Item);
    assert_eq!(i.delay.when, 5 + 3 * TEN_MILLIS);
    assert!(i.is_exhausted());
    assert_eq!(i.poll_next(true), StreamPoll::Done);
    assert_eq!(i.poll_next(false), StreamPoll::Done);
    assert_eq!(i.rem, 0);
}

#[test]
fn interval_with_no_items_ends_at_once() {
    let mut i = Interval::new(0, 5);
    assert!(i.is_exhausted());
    assert_eq!(i.poll_next(true), StreamPoll::Done);
    assert_eq!(i.delay.when, 5);
}

use my_redis::interval::{macro_interval_next, MACRO_ITEMS};

#[test]
fn macro_interval_gives_three_items_ten_millis_apart() {
    let mut state = (0u32, 1_000u64);
    let mut deadlines = Vec::new();
    while let Some(next) = macro_interval_next(state.0, state.1) {
        deadlines.push(state.1);
        state = next;
    }
    assert_eq!(deadlines, vec![1_000, 1_000 + TEN_MILLIS, 1_000 + 2 * TEN_MILLIS]);
    assert_eq!(state, (MACRO_ITEMS, 1_000 + 3 * TEN_MILLIS));
    assert_eq!(macro_interval_next(3, 5), None);
}

#[test]
fn waking_delay_spawns_exactly_one_timer_over_many_polls() {
    let mut d = WakingDelay::new(50);
    let mut spawned = 0;
    for same in [false, true, false, false, true, true] {
        if d.register_waker(same) == WakerAction::SpawnTimer {
            spawned += 1;
        }
    }
    assert_eq!(spawned, 1);
}

#[test]
fn main_future_is_ready_once() {
    let mut f = MainFuture::State0;
    let mut ready = 0;
    for now in [0u64, 5, TEN_MILLIS - 1, TEN_MILLIS] {
        if f.step(now) == MainStep::Ready {
            ready += 1;
        }
    }
    assert_eq!(ready, 1);
    assert_eq!(f, MainFuture::Terminated);
}

#[test]
fn interval_items_come_no_earlier_than_their_deadlines() {
    let t0 = 1_000u64;
    let mut i = Interval::new(2, t0);
    let mut times = Vec::new();
    for now in [t0 - 1, t0, t0 + 1, t0 + TEN_MILLIS, t0 + 3 * TEN_MILLIS] {
        let ready = !i.is_exhausted() && i.delay.is_ready(now);
        if i.poll_next(ready) == StreamPoll::Item {
            times.push(now);
        }
    }
    assert_eq!(times, vec![t0, t0 + TEN_MILLIS]);
    assert!(i.is_exhausted());
}
