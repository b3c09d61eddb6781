//! The phases of one run. The path is linear, and a fatal condition in any
//! phase ends the run in `Failed`; the staging copy is removed in either
//! case.
use vstd::prelude::*;

verus! {

#[derive(Debug, PartialEq, Eq, Structural, Clone, Copy)]
pub enum RunPhase {
    Idle,
    Scanning,
    Staging,
    Wiping,
    Rebuilding,
    UploadingPlaylists,
    CleaningUp,
    Done,
    Failed,
}

/// The phase that follows `p` when it ends without a fatal condition.
pub open spec fn phase_after(p: RunPhase) -> RunPhase {
    match p {
        RunPhase::Idle => RunPhase::Scanning,
        RunPhase::Scanning => RunPhase::Staging,
        RunPhase::Staging => RunPhase::Wiping,
        RunPhase::Wiping => RunPhase::Rebuilding,
        RunPhase::Rebuilding => RunPhase::UploadingPlaylists,
        RunPhase::UploadingPlaylists => RunPhase::CleaningUp,
        RunPhase::CleaningUp => RunPhase::Done,
        RunPhase::Done => RunPhase::Done,
        RunPhase::Failed => RunPhase::Failed,
    }
}

/// Whether the run has ended.
pub open spec fn is_final(p: RunPhase) -> bool {
    p == RunPhase::Done || p == RunPhase::Failed
}

/// The phase after `p`, given whether `p` met a fatal condition. Cleanup
/// failures are not fatal, and an ended run stays where it is.
pub fn advance(p: RunPhase, fatal: bool) -> (r: RunPhase)
    ensures
        r == (if fatal && !is_final(p) && p != RunPhase::CleaningUp {
            RunPhase::Failed
        } else {
            phase_after(p)
        }),
{
    if fatal && p != RunPhase::Done && p != RunPhase::Failed && p != RunPhase::CleaningUp {
        return RunPhase::Failed;
    }
    match p {
        RunPhase::Idle => RunPhase::Scanning,
        RunPhase::Scanning => RunPhase::Staging,
        RunPhase::Staging => RunPhase::Wiping,
        RunPhase::Wiping => RunPhase::Rebuilding,
        RunPhase::Rebuilding => RunPhase::UploadingPlaylists,
        RunPhase::UploadingPlaylists => RunPhase::CleaningUp,
        RunPhase::CleaningUp => RunPhase::Done,
        RunPhase::Done => RunPhase::Done,
        RunPhase::Failed => RunPhase::Failed,
    }
}

/// Whether the staging copy may exist in phase `p` and must be removed
/// before the process ends: from staging on, and after a failure.
pub fn staging_may_exist(p: RunPhase) -> (r: bool)
    ensures
        r == !(p == RunPhase::Idle || p == RunPhase::Scanning || p == RunPhase::Done),
{
    !(p == RunPhase::Idle || p == RunPhase::Scanning || p == RunPhase::Done)
}

} // verus!
