//! The decisions of a loop that races an operation against a timer, round
//! after round, until the operation completes or the rounds run out.

use vstd::prelude::*;

verus! {

/// How a round of the race ended.
#[derive(Clone, Copy, Debug, PartialEq, Eq)]
pub enum RoundOutcome {
    /// The operation completed.
    OpDone,
    /// The timer fired first.
    TimedOut,
}

/// What the loop does after a round.
#[derive(Clone, Copy, Debug, PartialEq, Eq)]
pub enum LoopStep {
    /// Race again.
    Again,
    /// Leave the loop.
    Stop,
}

/// A race loop with `rounds_left` more rounds, or with no limit (`None`).
#[derive(Clone, Copy, Debug, PartialEq, Eq)]
pub struct SelectLoop {
    pub rounds_left: Option<u32>,
}

/// One decision of the loop: a completed operation ends it; a timeout uses
/// up a round and ends it when none is left.
pub open spec fn loop_next(s: SelectLoop, outcome: RoundOutcome) -> (SelectLoop, LoopStep) {
    match outcome {
        RoundOutcome::OpDone => (s, LoopStep::Stop),
        RoundOutcome::TimedOut => match s.rounds_left {
            None => (s, LoopStep::Again),
            Some(n) => {
                let left = (n - 1) as u32;
                (SelectLoop { rounds_left: Some(left) }, if left == 0 { LoopStep::Stop } else { LoopStep::Again })
            },
        },
    }
}

impl SelectLoop {
    /// A loop of at most `rounds` rounds.
    pub fn bounded(rounds: u32) -> (l: SelectLoop)
        ensures
            l.rounds_left == Some(rounds),
    {
        SelectLoop { rounds_left: Some(rounds) }
    }

    /// A loop that races until the operation completes.
    pub fn unbounded() -> (l: SelectLoop)
        ensures
            l.rounds_left is None,
    {
        SelectLoop { rounds_left: None }
    }

    /// Whether another round may start.
    pub fn has_round(&self) -> (r: bool)
        ensures
            r == (self.rounds_left != Some(0u32)),
    {
        match self.rounds_left {
            Some(n) => n != 0,
            None => true,
        }
    }

    /// The decision after a round that ended with `outcome`.
    pub fn after_round(&mut self, outcome: RoundOutcome) -> (step: LoopStep)
        requires
            old(self).rounds_left != Some(0u32),
        ensures
            (*final(self), step) == loop_next(*old(self), outcome),
    {
        match outcome {
            RoundOutcome::OpDone => LoopStep::Stop,
            RoundOutcome::TimedOut => match self.rounds_left {
                None => LoopStep::Again,
                Some(n) => {
                    let left = n - 1;
                    self.rounds_left = Some(left);
                    if left == 0 {
                        LoopStep::Stop
                    } else {
                        LoopStep::Again
                    }
                },
            },
        }
    }
}

/// What a decision of the race loop does: a completed operation stops the
/// loop and leaves it as it was; a timeout leaves an unbounded loop as it
/// was and races again; a timeout in a bounded loop uses up one round, and
/// stops the loop exactly when it was the last.
pub proof fn lemma_loop_decision(s: SelectLoop, outcome: RoundOutcome)
    ensures
        outcome == RoundOutcome::OpDone ==> loop_next(s, outcome) == (s, LoopStep::Stop),
        outcome == RoundOutcome::TimedOut && s.rounds_left is None
            ==> loop_next(s, outcome) == (s, LoopStep::Again),
        outcome == RoundOutcome::TimedOut && s.rounds_left is Some && s.rounds_left.unwrap() > 0 ==> {
            &&& loop_next(s, outcome).0.rounds_left == Some((s.rounds_left.unwrap() - 1) as u32)
            &&& (loop_next(s, outcome).1 == LoopStep::Stop <==> s.rounds_left.unwrap() == 1)
        },
{
}

/// The number of rounds that a loop runs when the rounds end with the given
/// outcomes, taken in order until the loop stops.
pub open spec fn rounds_run(s: SelectLoop, outcomes: Seq<RoundOutcome>) -> nat
    decreases outcomes.len(),
{
    if outcomes.len() == 0 {
        0
    } else {
        let (next, step) = loop_next(s, outcomes[0]);
        if step == LoopStep::Stop {
            1
        } else {
            1 + rounds_run(next, outcomes.drop_first())
        }
    }
}

/// A bounded loop never runs more rounds than it was given, and it stops
/// at the first round in which the operation completes.
pub proof fn lemma_rounds_bounded(rounds: u32, outcomes: Seq<RoundOutcome>)
    requires
        rounds > 0,
    ensures
        rounds_run(SelectLoop { rounds_left: Some(rounds) }, outcomes) <= rounds,
        forall|i: int| 0 <= i < outcomes.len() && outcomes[i] == RoundOutcome::OpDone
            && (forall|j: int| 0 <= j < i ==> outcomes[j] == RoundOutcome::TimedOut)
            && i < rounds
            ==> rounds_run(SelectLoop { rounds_left: Some(rounds) }, outcomes) == i + 1,
    decreases outcomes.len(),
{
    let s = SelectLoop { rounds_left: Some(rounds) };
    if outcomes.len() > 0 && outcomes[0] == RoundOutcome::TimedOut && rounds > 1 {
        let rest = outcomes.drop_first();
        lemma_rounds_bounded((rounds - 1) as u32, rest);
        assert forall|i: int| 0 <= i < outcomes.len() && outcomes[i] == RoundOutcome::OpDone
            && (forall|j: int| 0 <= j < i ==> outcomes[j] == RoundOutcome::TimedOut)
            && i < rounds
            implies rounds_run(s, outcomes) == i + 1 by {
            assert(i > 0);
            assert(rest[i - 1] == outcomes[i]);
            assert forall|j: int| 0 <= j < i - 1 implies rest[j] == RoundOutcome::TimedOut by {
                assert(rest[j] == outcomes[j + 1]);
            }
        }
    }
}

/// An unbounded loop races until the operation completes: over rounds that
/// all time out it runs every one, and it stops at the first round in which
/// the operation completes.
pub proof fn lemma_unbounded_races_until_done(outcomes: Seq<RoundOutcome>)
    ensures
        (forall|j: int| 0 <= j < outcomes.len() ==> outcomes[j] == RoundOutcome::TimedOut)
            ==> rounds_run(SelectLoop { rounds_left: None }, outcomes) == outcomes.len(),
        forall|i: int| 0 <= i < outcomes.len() && outcomes[i] == RoundOutcome::OpDone
            && (forall|j: int| 0 <= j < i ==> outcomes[j] == RoundOutcome::TimedOut)
            ==> rounds_run(SelectLoop { rounds_left: None }, outcomes) == i + 1,
    decreases outcomes.len(),
{
    let s = SelectLoop { rounds_left: None };
    if outcomes.len() > 0 {
        let rest = outcomes.drop_first();
        lemma_unbounded_races_until_done(rest);
        if outcomes[0] == RoundOutcome::TimedOut {
            assert(loop_next(s, outcomes[0]) == (s, LoopStep::Again));
            if forall|j: int| 0 <= j < outcomes.len() ==> outcomes[j] == RoundOutcome::TimedOut {
                assert forall|j: int| 0 <= j < rest.len() implies rest[j] == RoundOutcome::TimedOut by {
                    assert(rest[j] == outcomes[j + 1]);
                }
            }
            assert forall|i: int| 0 <= i < outcomes.len() && outcomes[i] == RoundOutcome::OpDone
                && (forall|j: int| 0 <= j < i ==> outcomes[j] == RoundOutcome::TimedOut)
                implies rounds_run(s, outcomes) == i + 1 by {
                assert(i > 0);
                assert(rest[i - 1] == outcomes[i]);
                assert forall|j: int| 0 <= j < i - 1 implies rest[j] == RoundOutcome::TimedOut by {
                    assert(rest[j] == outcomes[j + 1]);
                }
            }
        }
    }
}

/// What a round of the loop that races a restartable operation against a
/// channel of values brought.
#[derive(Clone, Copy, Debug, PartialEq, Eq)]
pub enum ResumeEvent {
    /// The operation completed.
    OpDone,
    /// A value arrived on the channel.
    Received(u32),
    /// Neither branch can fire: the operation is done and the channel closed.
    AllClosed,
}

/// What the loop does after such a round.
#[derive(Clone, Copy, Debug, PartialEq, Eq)]
pub enum ResumeAction {
    /// Nothing: race again.
    Nothing,
    /// Replace the operation by a new one for this value, and race again.
    Restart(u32),
    /// Leave the loop.
    Break,
}

/// The decision of the loop, given whether the operation is done (which
/// takes it out of the race): a completed operation is marked done; an even
/// value restarts the operation with that value; an odd one is ignored; and
/// when nothing can fire the loop ends. Returns the new `done` flag.
pub fn resume_step(done: bool, event: ResumeEvent) -> (r: (bool, ResumeAction))
    ensures
        match event {
            ResumeEvent::OpDone => r == (true, ResumeAction::Nothing),
            ResumeEvent::Received(v) => if v % 2 == 0 {
                r == (false, ResumeAction::Restart(v))
            } else {
                r == (done, ResumeAction::Nothing)
            },
            ResumeEvent::AllClosed => r == (done, ResumeAction::Break),
        },
{
    match event {
        ResumeEvent::OpDone => (true, ResumeAction::Nothing),
        ResumeEvent::Received(v) => {
            if v % 2 == 0 {
                (false, ResumeAction::Restart(v))
            } else {
                (done, ResumeAction::Nothing)
            }
        },
        ResumeEvent::AllClosed => (done, ResumeAction::Break),
    }
}

} // verus!
