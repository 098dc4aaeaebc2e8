use my_redis::select_loop::{LoopStep, RoundOutcome, SelectLoop};

#[test]
fn bounded_loop_stops_after_its_rounds() {
    let mut l = SelectLoop::bounded(3);
    let mut rounds = 0;
    while l.has_round() {
        rounds += 1;
        if l.after_round(RoundOutcome::TimedOut) == LoopStep::Stop {
            break;
        }
    }
    assert_eq!(rounds, 3);
    assert_eq!(l.rounds_left, Some(0));
    assert!(!l.has_round());
}

#[test]
fn completed_operation_stops_the_loop() {
    let mut l = SelectLoop::bounded(5);
    assert_eq!(l.after_round(RoundOutcome::TimedOut), LoopStep::Again);
    assert_eq!(l.after_round(RoundOutcome::OpDone), LoopStep::Stop);
    assert_eq!(l.rounds_left, Some(4));
}

#[test]
fn unbounded_loop_races_until_done() {
    let mut l = SelectLoop::unbounded();
    for _ in 0..100 {
        assert!(l.has_round());
        assert_eq!(l.after_round(RoundOutcome::TimedOut), LoopStep::Again);
    }
    assert_eq!(l.after_round(RoundOutcome::OpDone), LoopStep::Stop);
    assert_eq!(l.rounds_left, None);
}

#[test]
fn zero_round_loop_never_races() {
    let l = SelectLoop::bounded(0);
    assert!(!l.has_round());
}

use my_redis::select_loop::{resume_step, ResumeAction, ResumeEvent};

#[test]
fn resume_loop_restarts_on_even_values_only() {
    assert_eq!(resume_step(false, ResumeEvent::OpDone), (true, ResumeAction::Nothing));
    assert_eq!(resume_step(true, ResumeEvent::Received(1)), (true, ResumeAction::Nothing));
    assert_eq!(resume_step(false, ResumeEvent::Received(3)), (false, ResumeAction::Nothing));
    assert_eq!(resume_step(true, ResumeEvent::Received(2)), (false, ResumeAction::Restart(2)));
    assert_eq!(resume_step(false, ResumeEvent::Received(4)), (false, ResumeAction::Restart(4)));
    assert_eq!(resume_step(true, ResumeEvent::AllClosed), (true, ResumeAction::Break));
}

#[test]
fn resume_loop_run_of_the_demo() {
    // The operation starts done-able; values 1..5 arrive, then the channel closes.
    let mut done = false;
    let mut restarts = Vec::new();
    for event in [
        ResumeEvent::OpDone,
        ResumeEvent::Received(1),
        ResumeEvent::Received(2),
        ResumeEvent::OpDone,
        ResumeEvent::Received(3),
        ResumeEvent::Received(4),
        ResumeEvent::OpDone,
        ResumeEvent::AllClosed,
    ] {
        let (d, action) = resume_step(done, event);
        done = d;
        match action {
            ResumeAction::Restart(v) => restarts.push(v),
            ResumeAction::Break => break,
            ResumeAction::Nothing => {}
        }
    }
    assert_eq!(restarts, vec![2, 4]);
    assert!(done);
}
