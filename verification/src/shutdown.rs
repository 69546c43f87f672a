//! The shutdown flag and the pacing of the recurring loops.

use vstd::prelude::*;

verus! {

/// Seconds between two scans of the work tree for files to track.
pub const SCAN_INTERVAL_SECS: u64 = 5;

/// Seconds between two looks of a watcher at its file.
pub const POLL_INTERVAL_SECS: u64 = 2;

/// Seconds between two scans of the mirror for entries to remove. Removals
/// should spread fast, so this is the shortest interval.
pub const RECONCILE_INTERVAL_SECS: u64 = 1;

/// Seconds that running tasks are given to notice a raised flag.
pub const GRACE_PERIOD_SECS: u64 = 5;

/// A flag that is raised once and never lowered.
#[derive(Clone, Copy, Debug)]
pub struct ShutdownFlag {
    raised: bool,
}

/// What a loop does at the end of a round.
#[derive(Clone, Copy, Debug, PartialEq, Eq, Structural)]
pub enum LoopControl {
    /// Leave the loop.
    Stop,
    /// Sleep for the given number of seconds, then start the next round.
    SleepSecs(u64),
}

impl ShutdownFlag {
    /// Whether the flag has been raised.
    pub closed spec fn raised(&self) -> bool {
        self.raised
    }

    /// A flag that has not been raised.
    pub fn new() -> (flag: Self)
        ensures
            !flag.raised(),
    {
        ShutdownFlag { raised: false }
    }

    /// The flag as it was observed: raised or not.
    pub fn observed(raised: bool) -> (flag: Self)
        ensures
            flag.raised() == raised,
    {
        ShutdownFlag { raised }
    }

    /// Raises the flag. Raising it again changes nothing.
    pub fn raise(&mut self)
        ensures
            final(self).raised(),
    {
        self.raised = true;
    }

    /// Whether the flag has been raised.
    pub fn is_raised(&self) -> (raised: bool)
        ensures
            raised == self.raised(),
    {
        self.raised
    }

    /// What a loop with the given interval does at the end of a round: it
    /// stops once the flag is raised, and sleeps for the interval otherwise.
    pub fn end_of_round(&self, interval_secs: u64) -> (control: LoopControl)
        ensures
            self.raised() ==> control == LoopControl::Stop,
            !self.raised() ==> control == LoopControl::SleepSecs(interval_secs),
    {
        if self.raised {
            LoopControl::Stop
        } else {
            LoopControl::SleepSecs(interval_secs)
        }
    }
}

/// Where the process stands between start and exit.
#[derive(Clone, Copy, Debug, PartialEq, Eq, Structural)]
pub enum Phase {
    /// The loops run.
    Running,
    /// The flag is raised, and running tasks are given time to notice.
    Draining,
    /// The process ends, whatever is still running.
    Stopped,
}

/// What the coordinator is told.
#[derive(Clone, Copy, Debug, PartialEq, Eq, Structural)]
pub enum Signal {
    /// The process was interrupted.
    Interrupt,
    /// The grace period is over.
    GraceElapsed,
}

/// What the coordinator asks for.
#[derive(Clone, Copy, Debug, PartialEq, Eq, Structural)]
pub enum Order {
    /// Go on waiting.
    Wait,
    /// Wait for the given number of seconds, then report that they are over.
    Grace(u64),
    /// End the process with success.
    Exit,
}

/// The phase after `signal` came in `phase`.
pub open spec fn next_phase(phase: Phase, signal: Signal) -> Phase {
    match (phase, signal) {
        (Phase::Running, Signal::Interrupt) => Phase::Draining,
        (Phase::Draining, Signal::GraceElapsed) => Phase::Stopped,
        _ => phase,
    }
}

/// What is asked for when `signal` comes in `phase`. The grace period is
/// granted once, by the interrupt that raises the flag.
pub open spec fn order_on(phase: Phase, signal: Signal) -> Order {
    match (phase, signal) {
        (Phase::Running, Signal::Interrupt) => Order::Grace(GRACE_PERIOD_SECS),
        (Phase::Draining, Signal::GraceElapsed) => Order::Exit,
        (Phase::Stopped, _) => Order::Exit,
        _ => Order::Wait,
    }
}

/// The shutdown coordinator: it raises the flag on the first interrupt and
/// ends the process when the grace period is over.
#[derive(Clone, Copy, Debug)]
pub struct ShutdownCoordinator {
    phase: Phase,
    flag: ShutdownFlag,
}

impl ShutdownCoordinator {
    /// The phase the process is in.
    pub closed spec fn phase(&self) -> Phase {
        self.phase
    }

    /// The flag is raised exactly when the loops are no longer meant to run.
    #[verifier::type_invariant]
    spec fn flag_follows_phase(self) -> bool {
        self.flag.raised() == (self.phase != Phase::Running)
    }

    /// A coordinator of a process whose loops run.
    pub fn new() -> (coordinator: Self)
        ensures
            coordinator.phase() == Phase::Running,
    {
        ShutdownCoordinator { phase: Phase::Running, flag: ShutdownFlag::new() }
    }

    /// The phase the process is in.
    pub fn current_phase(&self) -> (phase: Phase)
        ensures
            phase == self.phase(),
    {
        self.phase
    }

    /// The flag, as the loops should see it now.
    pub fn flag(&self) -> (flag: ShutdownFlag)
        ensures
            flag.raised() == (self.phase() != Phase::Running),
    {
        proof {
            use_type_invariant(self);
        }
        self.flag
    }

    /// Takes a signal and says what to do next.
    pub fn signal(&mut self, signal: Signal) -> (order: Order)
        ensures
            final(self).phase() == next_phase(old(self).phase(), signal),
            order == order_on(old(self).phase(), signal),
    {
        proof {
            use_type_invariant(&*self);
        }
        match (self.phase, signal) {
            (Phase::Running, Signal::Interrupt) => {
                let mut flag = self.flag;
                flag.raise();
                *self = ShutdownCoordinator { phase: Phase::Draining, flag };
                Order::Grace(GRACE_PERIOD_SECS)
            },
            (Phase::Draining, Signal::GraceElapsed) => {
                *self = ShutdownCoordinator { phase: Phase::Stopped, flag: self.flag };
                Order::Exit
            },
            (Phase::Stopped, _) => Order::Exit,
            _ => Order::Wait,
        }
    }
}

/// Once the loops are told to stop they are never told to run again: no
/// signal takes the process back to running, and so none lowers the flag.
pub proof fn lemma_shutdown_is_final(phase: Phase, signal: Signal)
    requires
        phase != Phase::Running,
    ensures
        next_phase(phase, signal) != Phase::Running,
{
}

} // verus!
