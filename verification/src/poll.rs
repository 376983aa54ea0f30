//! The loop that drives the scans.

use crate::scanner::ScanError;
use vstd::prelude::*;

verus! {

/// The seconds between the end of one scan and the start of the next.
pub const POLL_INTERVAL_SECS: u64 = 1;

/// What has happened to the loop that drives the scans.
#[derive(Clone, Copy, Debug, PartialEq, Eq)]
pub enum PollEvent {
    /// The loop was started.
    Started,
    /// A scan is over, with this outcome.
    ScanOver { outcome: Result<(), ScanError> },
    /// The wait between two scans is over.
    Woke,
}

/// What the loop that drives the scans does next.
#[derive(Clone, Copy, Debug, PartialEq, Eq)]
pub enum PollAction {
    /// Take a copy of the target list and scan with it.
    Scan,
    /// Report the error, where there is one, and wait for so many seconds.
    Sleep { seconds: u64, report: Option<ScanError> },
}

/// What the loop does after `event`: it scans when it is started and after
/// each wait, and after each scan it waits, having reported the scan's error
/// where it failed. Nothing ends the loop.
pub open spec fn action_after(event: PollEvent) -> PollAction {
    match event {
        PollEvent::Started => PollAction::Scan,
        PollEvent::Woke => PollAction::Scan,
        PollEvent::ScanOver { outcome: Ok(_) } => PollAction::Sleep {
            seconds: POLL_INTERVAL_SECS,
            report: None,
        },
        PollEvent::ScanOver { outcome: Err(error) } => PollAction::Sleep {
            seconds: POLL_INTERVAL_SECS,
            report: Some(error),
        },
    }
}

/// Says what the loop does after `event`. A failed scan is reported and then
/// waited out like any other: it does not stop the loop.
pub fn next_action(event: PollEvent) -> (action: PollAction)
    ensures
        action == action_after(event),
        event is ScanOver ==> action is Sleep,
        !(event is ScanOver) ==> action == PollAction::Scan,
{
    match event {
        PollEvent::Started => PollAction::Scan,
        PollEvent::Woke => PollAction::Scan,
        PollEvent::ScanOver { outcome } => match outcome {
            Ok(_) => PollAction::Sleep { seconds: POLL_INTERVAL_SECS, report: None },
            Err(error) => PollAction::Sleep { seconds: POLL_INTERVAL_SECS, report: Some(error) },
        },
    }
}

} // verus!
