//! Orchestration rules of a synchronization run: applying the UTC
//! offset to the fetched epoch seconds, and the single-fallback policy
//! when a server fails. The network calls themselves happen outside
//! the library; these functions decide what to do with their outcomes.

use vstd::prelude::*;

verus! {

/// Which server the current fetch attempt was aimed at.
#[derive(Clone, Copy, Debug, PartialEq, Eq, Structural)]
pub enum SyncPhase {
    /// The caller-chosen (or default) server, tried first.
    Primary,
    /// The built-in default server, tried after a primary failure.
    Fallback,
}

/// What the caller must do next after a fetch attempt.
#[derive(Clone, Copy, Debug, PartialEq, Eq, Structural)]
pub enum SyncAction {
    /// The fetch succeeded: set the clock from these epoch seconds.
    SetClock(u64),
    /// The primary fetch failed: make one attempt against the default
    /// server.
    TryDefaultServer,
    /// Both attempts failed: report the failure and stop.
    ReportFailure,
}

/// The fallback policy: a successful fetch is used at once; a failed
/// primary attempt is retried exactly once against the default server;
/// a failed fallback attempt ends the run.
pub fn next_sync_action(phase: SyncPhase, fetched: Option<u64>) -> (action: SyncAction)
    ensures
        fetched matches Some(t) ==> action == SyncAction::SetClock(t),
        fetched is None && phase == SyncPhase::Primary ==> action == SyncAction::TryDefaultServer,
        fetched is None && phase == SyncPhase::Fallback ==> action == SyncAction::ReportFailure,
{
    match fetched {
        Some(t) => SyncAction::SetClock(t),
        None => match phase {
            SyncPhase::Primary => SyncAction::TryDefaultServer,
            SyncPhase::Fallback => SyncAction::ReportFailure,
        },
    }
}

/// Adds a signed UTC offset of `hours` and `minutes` to an epoch-second
/// count, exactly; `None` when the shifted instant leaves the
/// representable range.
pub fn apply_timezone_offset(epoch_seconds: u64, hours: i64, minutes: i64) -> (r: Option<u64>)
    ensures
        ({
            let shifted = epoch_seconds as int + hours as int * 3600 + minutes as int * 60;
            &&& (r is Some <==> 0 <= shifted <= u64::MAX as int)
            &&& (r is Some ==> r->Some_0 as int == shifted)
        }),
{
    let shifted: i128 = epoch_seconds as i128 + hours as i128 * 3600 + minutes as i128 * 60;
    if shifted < 0 || shifted > u64::MAX as i128 {
        None
    } else {
        Some(shifted as u64)
    }
}

} // verus!
