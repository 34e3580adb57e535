//! The debounced scheduler of background reindex runs, as a state machine. Requests
//! that arrive while a run is pending join it; requests that arrive during a run
//! arm one run more. Time is a count of nanoseconds of a monotonic clock.

use vstd::prelude::*;

verus! {

/// The time from a request to its run, in nanoseconds.
pub const DEFAULT_DEBOUNCE: u64 = 500000000;

/// The state of the scheduler.
#[derive(Clone, Copy, Debug, PartialEq, Eq, Structural)]
pub struct BuildScheduler {
    /// When the pending run may start, if one is pending. Later requests do not
    /// move it.
    pub due_at: Option<u64>,
    /// The worker is to exit; a pending run is dropped.
    pub shutting_down: bool,
    /// The number of completed runs.
    pub runs_completed: u64,
    /// The time from a request to its run.
    pub debounce: u64,
}

/// What the worker does next.
#[derive(Clone, Copy, Debug, PartialEq, Eq, Structural)]
pub enum BuildStep {
    /// Exit.
    Exit,
    /// Wait until the state changes.
    Idle,
    /// Wait until the state changes, at most this many nanoseconds.
    Sleep(u64),
    /// Run a reindex.
    Run,
}

/// What the worker does next, at a time.
pub open spec fn build_step(scheduler: BuildScheduler, now: u64) -> BuildStep {
    if scheduler.shutting_down {
        BuildStep::Exit
    } else {
        match scheduler.due_at {
            None => BuildStep::Idle,
            Some(due) => if now <= due {
                BuildStep::Sleep((due - now) as u64)
            } else {
                BuildStep::Run
            },
        }
    }
}

/// The scheduler behind a request.
pub open spec fn requested(scheduler: BuildScheduler, now: u64) -> BuildScheduler {
    if scheduler.shutting_down || scheduler.due_at is Some {
        scheduler
    } else {
        BuildScheduler { due_at: Some((now + scheduler.debounce) as u64), ..scheduler }
    }
}

/// The scheduler behind a step of the worker: a run is no longer pending once it
/// begins.
pub open spec fn stepped(scheduler: BuildScheduler, now: u64) -> BuildScheduler {
    if build_step(scheduler, now) is Run {
        BuildScheduler { due_at: None, ..scheduler }
    } else {
        scheduler
    }
}

impl BuildScheduler {
    /// A scheduler with the default debounce.
    pub fn new() -> (scheduler: BuildScheduler)
        ensures
            scheduler == (BuildScheduler {
                due_at: None,
                shutting_down: false,
                runs_completed: 0,
                debounce: DEFAULT_DEBOUNCE,
            }),
    {
        Self::with_debounce(DEFAULT_DEBOUNCE)
    }

    /// A scheduler with nothing pending.
    pub fn with_debounce(debounce: u64) -> (scheduler: BuildScheduler)
        ensures
            scheduler == (BuildScheduler {
                due_at: None,
                shutting_down: false,
                runs_completed: 0,
                debounce,
            }),
    {
        BuildScheduler { due_at: None, shutting_down: false, runs_completed: 0, debounce }
    }

    /// Requests a run.
    pub fn schedule_reindex(&mut self, now: u64)
        requires
            now + old(self).debounce <= u64::MAX,
        ensures
            *final(self) == requested(*old(self), now),
    {
        if self.shutting_down || self.due_at.is_some() {
            return;
        }
        self.due_at = Some(now + self.debounce);
    }

    /// What the worker does next. A run that it begins is no longer pending.
    pub fn step(&mut self, now: u64) -> (step: BuildStep)
        ensures
            step == build_step(*old(self), now),
            *final(self) == stepped(*old(self), now),
    {
        if self.shutting_down {
            return BuildStep::Exit;
        }
        match self.due_at {
            None => BuildStep::Idle,
            Some(due) => {
                if now <= due {
                    BuildStep::Sleep(due - now)
                } else {
                    self.due_at = None;
                    BuildStep::Run
                }
            },
        }
    }

    /// Counts a completed run.
    pub fn run_completed(&mut self)
        requires
            old(self).runs_completed < u64::MAX,
        ensures
            *final(self) == (BuildScheduler {
                runs_completed: (old(self).runs_completed + 1) as u64,
                ..*old(self)
            }),
    {
        self.runs_completed = self.runs_completed + 1;
    }

    /// Tells the worker to exit.
    pub fn shut_down(&mut self)
        ensures
            *final(self) == (BuildScheduler { shutting_down: true, ..*old(self) }),
    {
        self.shutting_down = true;
    }
}

/// Requests while a run is pending change nothing: they join the run, and do not
/// delay it.
pub proof fn law_requests_coalesce(scheduler: BuildScheduler, first: u64, second: u64)
    requires
        first + scheduler.debounce <= u64::MAX,
    ensures
        requested(requested(scheduler, first), second) == requested(scheduler, first),
{
}

/// A request while nothing is pending leads to exactly one run, which begins as
/// soon as the debounce is over: not before, and not again without a request.
pub proof fn law_one_run_per_request(
    scheduler: BuildScheduler,
    requested_at: u64,
    now: u64,
    later: u64,
)
    requires
        !scheduler.shutting_down,
        scheduler.due_at is None,
        requested_at + scheduler.debounce <= u64::MAX,
    ensures
        ({
            let armed = requested(scheduler, requested_at);
            &&& build_step(armed, now) is Run <==> now > requested_at + scheduler.debounce
            &&& build_step(armed, now) is Run ==> build_step(stepped(armed, now), later) is Idle
        }),
{
}

/// A request during a run arms exactly one run more.
pub proof fn law_follow_up(scheduler: BuildScheduler, now: u64, during: u64)
    requires
        build_step(scheduler, now) is Run,
        during + scheduler.debounce <= u64::MAX,
    ensures
        requested(stepped(scheduler, now), during).due_at == Some(
            (during + scheduler.debounce) as u64,
        ),
{
}

/// Once it is told to, the worker exits at its next step, whatever is pending.
pub proof fn law_shutdown_wins(scheduler: BuildScheduler, now: u64)
    requires
        scheduler.shutting_down,
    ensures
        build_step(scheduler, now) is Exit,
        requested(scheduler, now) == scheduler,
{
}

/// A worker that sleeps for as long as it is told to wakes up when the run is due: not after it
/// has begun, and a moment later it begins.
pub proof fn law_sleep_ends_in_time(scheduler: BuildScheduler, now: u64, time: u64, later: u64)
    requires
        build_step(scheduler, now) == BuildStep::Sleep(time),
    ensures
        later <= now + time ==> !(build_step(scheduler, later) is Run),
        later > now + time ==> build_step(scheduler, later) is Run,
        stepped(scheduler, now) == scheduler,
{
}

} // verus!
