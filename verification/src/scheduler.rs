//! The cycle scheduler: when a round runs and how long to wait for the next.
//!
//! The scheduler is a state machine. Its caller performs what it asks for,
//! running a round or sleeping, and tells it what happened. A round that
//! failed is followed by the same wait as one that succeeded; the next round
//! is the retry. A request to shut down takes effect between rounds, never
//! inside one.

use crate::config::MiningConfiguration;
use vstd::prelude::*;

verus! {

/// Where the scheduler stands.
#[derive(Clone, Copy, Debug, PartialEq, Eq, Structural)]
pub enum SchedulerState {
    /// No round has run yet.
    Idle,
    /// A round is under way.
    Running,
    /// Waiting for the next round.
    Sleeping,
    /// Shut down; no round will run again.
    Stopped,
}

/// What the caller reports to the scheduler.
#[derive(Clone, Copy, Debug, PartialEq, Eq, Structural)]
pub enum SchedulerEvent {
    /// The caller is ready for the first round.
    Start,
    /// The round under way has ended, well or not.
    RoundFinished { succeeded: bool },
    /// The wait has passed.
    SleepElapsed,
    /// Someone asked for the scheduler to stop.
    ShutdownRequested,
}

/// What the scheduler asks of the caller.
#[derive(Clone, Copy, Debug, PartialEq, Eq, Structural)]
pub enum SchedulerAction {
    /// Run one round and report how it ended.
    RunRound,
    /// Sleep for this many seconds and report when they have passed.
    Sleep { secs: u64 },
    /// Stop; nothing more will be asked for.
    Halt,
    /// Go on with what is under way.
    Proceed,
}

/// The scheduler: its state, the interval it was given, and whether a
/// shutdown has been asked for during the round under way.
#[derive(Clone, Copy, Debug, PartialEq, Eq, Structural)]
pub struct Scheduler {
    pub state: SchedulerState,
    pub cycle_interval_secs: u64,
    pub shutdown_pending: bool,
}

/// The scheduler after `event`, and what it asks for.
pub open spec fn scheduler_step(s: Scheduler, event: SchedulerEvent) -> (Scheduler, SchedulerAction) {
    match (s.state, event) {
        (SchedulerState::Idle, SchedulerEvent::Start) => (
            Scheduler { state: SchedulerState::Running, ..s },
            SchedulerAction::RunRound,
        ),
        (SchedulerState::Running, SchedulerEvent::RoundFinished { succeeded }) => {
            if s.shutdown_pending {
                (
                    Scheduler { state: SchedulerState::Stopped, shutdown_pending: false, ..s },
                    SchedulerAction::Halt,
                )
            } else {
                (
                    Scheduler { state: SchedulerState::Sleeping, ..s },
                    SchedulerAction::Sleep { secs: s.cycle_interval_secs },
                )
            }
        },
        (SchedulerState::Running, SchedulerEvent::ShutdownRequested) => (
            Scheduler { shutdown_pending: true, ..s },
            SchedulerAction::Proceed,
        ),
        (SchedulerState::Sleeping, SchedulerEvent::SleepElapsed) => (
            Scheduler { state: SchedulerState::Running, ..s },
            SchedulerAction::RunRound,
        ),
        (SchedulerState::Idle, SchedulerEvent::ShutdownRequested)
        | (SchedulerState::Sleeping, SchedulerEvent::ShutdownRequested) => (
            Scheduler { state: SchedulerState::Stopped, ..s },
            SchedulerAction::Halt,
        ),
        (SchedulerState::Stopped, _) => (s, SchedulerAction::Halt),
        _ => (s, SchedulerAction::Proceed),
    }
}

/// The events of `outcomes.len()` rounds in a row, seen from inside the first:
/// each round ends with its outcome and is followed by the end of the wait.
pub open spec fn round_events(outcomes: Seq<bool>) -> Seq<SchedulerEvent>
    decreases outcomes.len(),
{
    if outcomes.len() == 0 {
        Seq::empty()
    } else {
        round_events(outcomes.drop_last()).push(
            SchedulerEvent::RoundFinished { succeeded: outcomes.last() },
        ).push(SchedulerEvent::SleepElapsed)
    }
}

/// The scheduler after a sequence of events.
pub open spec fn scheduler_run(s: Scheduler, events: Seq<SchedulerEvent>) -> Scheduler
    decreases events.len(),
{
    if events.len() == 0 {
        s
    } else {
        scheduler_step(scheduler_run(s, events.drop_last()), events.last()).0
    }
}

/// What the scheduler asked for at each event of a sequence.
pub open spec fn scheduler_actions(s: Scheduler, events: Seq<SchedulerEvent>) -> Seq<
    SchedulerAction,
>
    decreases events.len(),
{
    if events.len() == 0 {
        Seq::empty()
    } else {
        scheduler_actions(s, events.drop_last()).push(
            scheduler_step(scheduler_run(s, events.drop_last()), events.last()).1,
        )
    }
}

impl Scheduler {
    /// A scheduler that has not started, with the interval to keep.
    pub fn new(cycle_interval_secs: u64) -> (s: Scheduler)
        ensures
            s == (Scheduler {
                state: SchedulerState::Idle,
                cycle_interval_secs,
                shutdown_pending: false,
            }),
    {
        Scheduler { state: SchedulerState::Idle, cycle_interval_secs, shutdown_pending: false }
    }

    /// A scheduler that has not started and keeps the interval of `config`.
    pub fn from_config(config: &MiningConfiguration) -> (s: Scheduler)
        ensures
            s.state == SchedulerState::Idle,
            s.cycle_interval_secs == config@.cycle_interval_secs,
            !s.shutdown_pending,
    {
        Scheduler::new(config.cycle_interval_secs())
    }

    /// Takes in `event` and says what to do next.
    pub fn step(&mut self, event: SchedulerEvent) -> (action: SchedulerAction)
        ensures
            (*final(self), action) == scheduler_step(*old(self), event),
            final(self).cycle_interval_secs == old(self).cycle_interval_secs,
    {
        match self.state {
            SchedulerState::Idle => match event {
                SchedulerEvent::Start => {
                    self.state = SchedulerState::Running;
                    SchedulerAction::RunRound
                },
                SchedulerEvent::ShutdownRequested => {
                    self.state = SchedulerState::Stopped;
                    SchedulerAction::Halt
                },
                _ => SchedulerAction::Proceed,
            },
            SchedulerState::Running => match event {
                SchedulerEvent::RoundFinished { succeeded: _ } => {
                    if self.shutdown_pending {
                        self.state = SchedulerState::Stopped;
                        self.shutdown_pending = false;
                        SchedulerAction::Halt
                    } else {
                        self.state = SchedulerState::Sleeping;
                        SchedulerAction::Sleep { secs: self.cycle_interval_secs }
                    }
                },
                SchedulerEvent::ShutdownRequested => {
                    self.shutdown_pending = true;
                    SchedulerAction::Proceed
                },
                _ => SchedulerAction::Proceed,
            },
            SchedulerState::Sleeping => match event {
                SchedulerEvent::SleepElapsed => {
                    self.state = SchedulerState::Running;
                    SchedulerAction::RunRound
                },
                SchedulerEvent::ShutdownRequested => {
                    self.state = SchedulerState::Stopped;
                    SchedulerAction::Halt
                },
                _ => SchedulerAction::Proceed,
            },
            SchedulerState::Stopped => SchedulerAction::Halt,
        }
    }

    /// Whether a round is under way.
    pub fn is_running(&self) -> (running: bool)
        ensures
            running == (self.state == SchedulerState::Running),
    {
        match self.state {
            SchedulerState::Running => true,
            _ => false,
        }
    }

    /// Whether the scheduler has shut down.
    pub fn is_stopped(&self) -> (stopped: bool)
        ensures
            stopped == (self.state == SchedulerState::Stopped),
    {
        match self.state {
            SchedulerState::Stopped => true,
            _ => false,
        }
    }
}

/// The wait after a round does not depend on how the round ended: after a
/// failure the scheduler sleeps the configured interval, as after a success,
/// and is in the same state.
pub proof fn law_same_interval_after_failure(s: Scheduler)
    requires
        s.state == SchedulerState::Running,
        !s.shutdown_pending,
    ensures
        scheduler_step(s, SchedulerEvent::RoundFinished { succeeded: false })
            == scheduler_step(s, SchedulerEvent::RoundFinished { succeeded: true }),
        scheduler_step(s, SchedulerEvent::RoundFinished { succeeded: false }).1
            == (SchedulerAction::Sleep { secs: s.cycle_interval_secs }),
        scheduler_step(s, SchedulerEvent::RoundFinished { succeeded: false }).0.state
            == SchedulerState::Sleeping,
{
}

/// Failures do not stop the scheduler. After any number of rounds, however
/// each of them ended, a scheduler that nobody asked to shut down is running
/// the next round; after every round it asked for a sleep of the configured
/// interval, and after every sleep for another round.
pub proof fn law_rounds_go_on_after_failures(s: Scheduler, outcomes: Seq<bool>)
    requires
        s.state == SchedulerState::Running,
        !s.shutdown_pending,
    ensures
        scheduler_run(s, round_events(outcomes)) == s,
        scheduler_actions(s, round_events(outcomes)).len() == 2 * outcomes.len(),
        forall|k: int|
            0 <= k < outcomes.len() ==> {
                &&& (#[trigger] scheduler_actions(s, round_events(outcomes))[2 * k])
                    == (SchedulerAction::Sleep { secs: s.cycle_interval_secs })
                &&& scheduler_actions(s, round_events(outcomes))[2 * k + 1]
                    == SchedulerAction::RunRound
            },
    decreases outcomes.len(),
{
    if outcomes.len() > 0 {
        let before = outcomes.drop_last();
        law_rounds_go_on_after_failures(s, before);
        let finished = SchedulerEvent::RoundFinished { succeeded: outcomes.last() };
        let mid = round_events(before).push(finished);
        let all = round_events(outcomes);
        assert(all == mid.push(SchedulerEvent::SleepElapsed));
        assert(all.drop_last() =~= mid);
        assert(mid.drop_last() =~= round_events(before));
        assert(scheduler_run(s, mid) == scheduler_step(s, finished).0);
        assert(scheduler_actions(s, mid) == scheduler_actions(s, round_events(before)).push(
            SchedulerAction::Sleep { secs: s.cycle_interval_secs },
        ));
        assert(scheduler_actions(s, all) == scheduler_actions(s, mid).push(
            SchedulerAction::RunRound,
        ));
        assert forall|k: int| 0 <= k < outcomes.len() implies {
            &&& (#[trigger] scheduler_actions(s, round_events(outcomes))[2 * k])
                == (SchedulerAction::Sleep { secs: s.cycle_interval_secs })
            &&& scheduler_actions(s, round_events(outcomes))[2 * k + 1]
                == SchedulerAction::RunRound
        } by {
            if k < before.len() {
                assert(scheduler_actions(s, round_events(before))[2 * k] == (
                SchedulerAction::Sleep { secs: s.cycle_interval_secs }));
            }
        }
    }
}

/// Rounds never overlap: while a round is under way, no event makes the
/// scheduler ask for another.
pub proof fn law_rounds_never_overlap(s: Scheduler, event: SchedulerEvent)
    requires
        s.state == SchedulerState::Running,
    ensures
        scheduler_step(s, event).1 != SchedulerAction::RunRound,
{
}

/// Only a request to shut down stops the scheduler: without one, asked for
/// now or pending from before, it never reaches the stopped state.
pub proof fn law_only_shutdown_stops(s: Scheduler, event: SchedulerEvent)
    requires
        s.state != SchedulerState::Stopped,
        !s.shutdown_pending,
        event != SchedulerEvent::ShutdownRequested,
    ensures
        scheduler_step(s, event).0.state != SchedulerState::Stopped,
        !scheduler_step(s, event).0.shutdown_pending,
        scheduler_step(s, event).1 != SchedulerAction::Halt,
{
}

/// A shutdown asked for during a round does not cut the round short: the
/// scheduler goes on, and halts when the round has ended, whatever its
/// outcome, without sleeping again.
pub proof fn law_shutdown_waits_for_round(s: Scheduler, succeeded: bool)
    requires
        s.state == SchedulerState::Running,
    ensures
        scheduler_step(s, SchedulerEvent::ShutdownRequested).1 == SchedulerAction::Proceed,
        scheduler_step(s, SchedulerEvent::ShutdownRequested).0.state == SchedulerState::Running,
        scheduler_step(
            scheduler_step(s, SchedulerEvent::ShutdownRequested).0,
            SchedulerEvent::RoundFinished { succeeded },
        ).1 == SchedulerAction::Halt,
        scheduler_step(
            scheduler_step(s, SchedulerEvent::ShutdownRequested).0,
            SchedulerEvent::RoundFinished { succeeded },
        ).0.state == SchedulerState::Stopped,
{
}

} // verus!
