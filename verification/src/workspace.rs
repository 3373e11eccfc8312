//! Workspace carve-out failures and the route errors they become.
use vstd::prelude::*;
use vstd::string::StringExecFns;
use crate::auth::ApiError;
use crate::fmt::{decimal, display_usize};

verus! {

/// Why the workspace carve-out (handoff transfer plus write-lock
/// acquire) did not land. The I/O failures carry the operating system's
/// rendering of the error.
#[derive(Clone, Debug)]
pub enum EstablishLockFailure {
    /// A full-handoff configuration without a supervisor; nothing was
    /// touched.
    HandoffWithoutSupervisor,
    /// The forward handoff transfer failed; nothing followed it.
    ForwardTransferFailed(String),
    /// Another agent holds an overlapping write-lock (any forward
    /// transfer was already reversed).
    Busy { holder: String, conflict: String },
    /// The acquire itself failed (any forward transfer was already
    /// reversed).
    AcquireFailed(String),
}

pub open spec fn failure_message(e: EstablishLockFailure) -> Seq<char> {
    match e {
        EstablishLockFailure::HandoffWithoutSupervisor =>
            "full-handoff agent has no supervisor (created_by); corrupt meta.json"@,
        EstablishLockFailure::ForwardTransferFailed(io) => "full-handoff lock transfer failed: "@ + io@,
        EstablishLockFailure::Busy { holder, conflict } =>
            "workspace overlaps a write-lock on "@ + conflict@ + " held by agent "@ + holder@
                + "; remove it or choose a non-overlapping workspace"@,
        EstablishLockFailure::AcquireFailed(io) => "failed to acquire workspace lock: "@ + io@,
    }
}

impl EstablishLockFailure {
    /// The one rendering of the failure every caller shows.
    pub fn message(&self) -> (m: String)
        ensures m@ == failure_message(*self),
    {
        match self {
            EstablishLockFailure::HandoffWithoutSupervisor => String::from_str(
                "full-handoff agent has no supervisor (created_by); corrupt meta.json",
            ),
            EstablishLockFailure::ForwardTransferFailed(io) => String::from_str(
                "full-handoff lock transfer failed: ",
            ).concat(io.as_str()),
            EstablishLockFailure::Busy { holder, conflict } => String::from_str("workspace overlaps a write-lock on ").concat(
                conflict.as_str(),
            ).concat(" held by agent ").concat(holder.as_str()).concat(
                "; remove it or choose a non-overlapping workspace",
            ),
            EstablishLockFailure::AcquireFailed(io) => String::from_str("failed to acquire workspace lock: ").concat(
                io.as_str(),
            ),
        }
    }
}

/// The route status of a carve-out failure: a lock conflict is `409`,
/// a failed acquire is the caller's workspace problem (`400`), and the
/// handoff failures are the server's own (`500`).
pub open spec fn failure_status(e: EstablishLockFailure) -> u16 {
    match e {
        EstablishLockFailure::Busy { .. } => 409,
        EstablishLockFailure::AcquireFailed(_) => 400,
        _ => 500,
    }
}

/// Map a carve-out failure to the route error.
pub fn establish_lock_api_error(e: EstablishLockFailure) -> (r: ApiError)
    ensures
        r.status == failure_status(e),
        r.message@ == failure_message(e),
{
    let m = e.message();
    match e {
        EstablishLockFailure::Busy { .. } => ApiError::conflict(m),
        EstablishLockFailure::AcquireFailed(_) => ApiError::bad_request(m),
        _ => ApiError::internal(m),
    }
}

/// Why the supervisor's exec gate refused a carve-out write.
#[derive(Clone, Copy, Debug, PartialEq, Eq, Structural)]
pub enum ExecGateFailure {
    ForegroundExecInProgress,
    /// This many background tasks are still running.
    BgTasksRunning(usize),
}

/// A refused carve-out is a `409` the caller retries once the
/// supervisor is quiescent.
pub fn exec_gate_failure(failure: ExecGateFailure) -> (r: ApiError)
    ensures
        r.status == 409,
        r.message@ == match failure {
            ExecGateFailure::ForegroundExecInProgress =>
                "supervisor has an in-flight shell; wait for it to finish and retry"@,
            ExecGateFailure::BgTasksRunning(n) => "supervisor has "@ + decimal(n as nat)
                + " running background task(s); wait for them to finish and retry"@,
        },
{
    let m = match failure {
        ExecGateFailure::ForegroundExecInProgress => String::from_str(
            "supervisor has an in-flight shell; wait for it to finish and retry",
        ),
        ExecGateFailure::BgTasksRunning(n) => {
            let shown = display_usize(n);
            String::from_str("supervisor has ").concat(shown.as_str()).concat(
                " running background task(s); wait for them to finish and retry",
            )
        },
    };
    ApiError::conflict(m)
}

} // verus!
