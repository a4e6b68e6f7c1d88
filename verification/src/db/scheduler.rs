//! When database updates run: the schedule of automatic updates, and the
//! triggers and statuses exchanged with the task that runs them.
use vstd::prelude::*;
use crate::db::error::DatabaseError;
use crate::outside::unbounded_send;
use crate::text::{chars_of, string_from_chars};

verus! {

/// What asked for an update.
#[derive(Clone, Copy, PartialEq, Eq, Structural, Debug)]
pub enum UpdateTrigger {
    Scheduled,
    Manual,
    Startup,
    ProcessDetectionRequest,
}

/// How an update went.
pub struct UpdateResult {
    pub trigger: UpdateTrigger,
    pub started_at: std::time::SystemTime,
    pub completed_at: std::time::SystemTime,
    pub success: bool,
    pub games_added: usize,
    pub games_removed: usize,
    pub games_modified: usize,
    pub error: Option<String>,
}

/// What the update task reports.
pub enum UpdateStatus {
    Started(UpdateTrigger),
    Success(UpdateResult),
    Failed(String),
    Disabled,
}

/// The schedule of automatic updates, in milliseconds since the Unix
/// epoch: the next update is due at `next`, if automatic updates are on.
pub struct UpdateSchedule {
    pub next: Option<u128>,
    pub interval_ms: u128,
}

/// What the update task does on one turn of its loop.
pub struct ScheduleTick {
    /// Whether a scheduled update is to be triggered now.
    pub trigger_now: bool,
    /// How long to wait for a trigger before the next turn.
    pub sleep_ms: u128,
}

/// One turn of the schedule at time `now`: with automatic updates on, an
/// update that is due is triggered and the next one is due an interval
/// later, and the task then waits an interval; one not yet due is waited
/// for. With automatic updates off the task waits a minute for manual
/// triggers.
pub open spec fn tick_of(next: Option<u128>, interval_ms: u128, now: u128) -> (Option<u128>, bool, u128) {
    match next {
        None => (None, false, 60_000),
        Some(due) => if now >= due {
            (Some((now + interval_ms) as u128), true, interval_ms)
        } else {
            (Some(due), false, (due - now) as u128)
        },
    }
}

impl UpdateSchedule {
    /// The schedule when the task starts at `now`: the first automatic
    /// update is due after the start-up delay.
    pub fn starting(enable_auto_updates: bool, now: u128, startup_delay_ms: u128, interval_ms: u128) -> (r: Self)
        requires
            now + startup_delay_ms <= u128::MAX,
        ensures
            r.next == (if enable_auto_updates { Some((now + startup_delay_ms) as u128) } else { None::<u128> }),
            r.interval_ms == interval_ms,
    {
        UpdateSchedule {
            next: if enable_auto_updates { Some(now + startup_delay_ms) } else { None },
            interval_ms,
        }
    }

    /// One turn of the schedule (see `tick_of`).
    pub fn tick(&mut self, now: u128) -> (r: ScheduleTick)
        requires
            now + old(self).interval_ms <= u128::MAX,
        ensures
            (final(self).next, r.trigger_now, r.sleep_ms) == tick_of(old(self).next, old(self).interval_ms, now),
            final(self).interval_ms == old(self).interval_ms,
    {
        match self.next {
            None => ScheduleTick { trigger_now: false, sleep_ms: 60_000 },
            Some(due) => {
                if now >= due {
                    self.next = Some(now + self.interval_ms);
                    ScheduleTick { trigger_now: true, sleep_ms: self.interval_ms }
                } else {
                    ScheduleTick { trigger_now: false, sleep_ms: due - now }
                }
            },
        }
    }
}

/// A due update is triggered once per interval: after a turn that
/// triggers, the next turn before an interval has passed does not.
pub proof fn law_one_trigger_per_interval(due: u128, interval_ms: u128, now: u128, later: u128)
    requires
        now >= due,
        interval_ms > 0,
        now + interval_ms <= u128::MAX,
        now <= later < now + interval_ms,
    ensures
        tick_of(Some(due), interval_ms, now).1,
        !tick_of(tick_of(Some(due), interval_ms, now).0, interval_ms, later).1,
{
}

/// The status to report for the outcome of an update.
pub fn status_of(outcome: Result<UpdateResult, String>) -> (r: UpdateStatus)
    ensures
        match outcome {
            Ok(result) => r == UpdateStatus::Success(result),
            Err(message) => r == UpdateStatus::Failed(message),
        },
{
    match outcome {
        Ok(result) => UpdateStatus::Success(result),
        Err(message) => UpdateStatus::Failed(message),
    }
}

/// The error for a trigger that could not be handed to the update task.
fn scheduler_error(text: &str) -> (r: DatabaseError)
    ensures
        r matches DatabaseError::SchedulerError(m) && m@ == text@,
{
    DatabaseError::SchedulerError(string_from_chars(chars_of(text).as_slice()))
}

/// The channel triggers reach the update task through, while it runs.
pub struct TriggerLine {
    sender: Option<tokio::sync::mpsc::UnboundedSender<UpdateTrigger>>,
}

impl TriggerLine {
    /// Whether the update task runs.
    pub closed spec fn running(&self) -> bool {
        self.sender is Some
    }

    /// No task runs.
    pub fn idle() -> (r: Self)
        ensures
            !r.running(),
    {
        TriggerLine { sender: None }
    }

    /// The task runs and takes triggers from `sender`.
    pub fn connected(sender: tokio::sync::mpsc::UnboundedSender<UpdateTrigger>) -> (r: Self)
        ensures
            r.running(),
    {
        TriggerLine { sender: Some(sender) }
    }

    /// The task was stopped.
    pub fn disconnect(&mut self)
        ensures
            !final(self).running(),
    {
        self.sender = None;
    }

    /// Whether the update task runs.
    pub fn is_running(&self) -> (r: bool)
        ensures
            r == self.running(),
    {
        self.sender.is_some()
    }

    /// Asks for a manual update; an error when no task runs or it is gone.
    pub fn trigger_manual_update(&self) -> (r: Result<(), DatabaseError>)
        ensures
            !self.running() ==> (r matches Err(DatabaseError::SchedulerError(m)) && m@ == "Scheduler not running"@),
            r is Err ==> (r matches Err(DatabaseError::SchedulerError(m))
                && (m@ == "Scheduler not running"@ || m@ == "Failed to send manual update trigger"@)),
    {
        match &self.sender {
            Some(sender) => {
                if unbounded_send(sender, UpdateTrigger::Manual) {
                    Ok(())
                } else {
                    Err(scheduler_error("Failed to send manual update trigger"))
                }
            },
            None => Err(scheduler_error("Scheduler not running")),
        }
    }

    /// Asks for a start-up update; nothing happens when no task runs.
    pub fn trigger_startup_update(&self) -> (r: Result<(), DatabaseError>)
        ensures
            !self.running() ==> r is Ok,
            r is Err ==> (r matches Err(DatabaseError::SchedulerError(m)) && m@ == "Failed to send startup update trigger"@),
    {
        match &self.sender {
            Some(sender) => {
                if unbounded_send(sender, UpdateTrigger::Startup) {
                    Ok(())
                } else {
                    Err(scheduler_error("Failed to send startup update trigger"))
                }
            },
            None => Ok(()),
        }
    }

    /// Asks for an update on behalf of the process detector; nothing
    /// happens when no task runs.
    pub fn trigger_process_detection_update(&self) -> (r: Result<(), DatabaseError>)
        ensures
            !self.running() ==> r is Ok,
            r is Err ==> (r matches Err(DatabaseError::SchedulerError(m))
                && m@ == "Failed to send process detection update trigger"@),
    {
        match &self.sender {
            Some(sender) => {
                if unbounded_send(sender, UpdateTrigger::ProcessDetectionRequest) {
                    Ok(())
                } else {
                    Err(scheduler_error("Failed to send process detection update trigger"))
                }
            },
            None => Ok(()),
        }
    }
}

/// The error when the task is started twice.
pub fn already_running() -> (r: DatabaseError)
    ensures
        r matches DatabaseError::SchedulerError(m) && m@ == "Scheduler already running"@,
{
    scheduler_error("Scheduler already running")
}

} // verus!
