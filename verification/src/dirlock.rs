//! Directory write-lock requests: who may act on an agent's locks, the
//! delegation chain an acquire carries, and the bounded retry of an
//! acquire against a busy holder.
use vstd::prelude::*;
use vstd::string::StringExecFns;
use crate::auth::{ApiError, Identity};
use crate::registry::{AgentRegistry, ChainWalk, chain_error_ok, chain_of};
use crate::agents::may_act_for;

verus! {

/// Acquire the write-lock on `path`, retrying for `timeout_secs` (five
/// seconds when absent).
#[derive(Clone, Debug)]
pub struct AcquireRequest {
    pub path: String,
    pub timeout_secs: Option<u64>,
}

/// The outcome of an acquire that did not fail.
#[derive(Clone, Debug)]
pub struct AcquireResponse {
    pub acquired: bool,
    pub already_held: bool,
    /// Present only when acquisition failed: the holder's id.
    pub holder: Option<String>,
}

/// Release the write-lock on `path`.
#[derive(Clone, Debug)]
pub struct ReleaseRequest {
    pub path: String,
}

/// Ask who holds the write-lock on `dir`.
#[derive(Clone, Debug)]
pub struct WhoQuery {
    pub dir: String,
}

/// The holder of a directory's write-lock, if any.
#[derive(Clone, Debug)]
pub struct WhoResponse {
    pub holder: Option<String>,
}

/// The retry budget of an acquire without an explicit timeout.
pub const DEFAULT_ACQUIRE_TIMEOUT_SECS: u64 = 5;

/// The retry budget of an acquire, in seconds.
pub fn acquire_deadline_secs(req: &AcquireRequest) -> (s: u64)
    ensures s == match req.timeout_secs { Some(t) => t, None => DEFAULT_ACQUIRE_TIMEOUT_SECS },
{
    match req.timeout_secs {
        Some(t) => t,
        None => DEFAULT_ACQUIRE_TIMEOUT_SECS,
    }
}

/// The delegation chain an acquire carries: the caller must be the
/// agent or the operator (`403`), then the agent's supervisor chain up
/// to the root (empty for the root itself or an unknown agent; a broken
/// or cyclic chain refuses as the walk does).
pub fn acquire_chain(registry: &AgentRegistry, identity: &Identity, id: &String) -> (r: Result<Vec<String>, ApiError>)
    requires registry.wf(),
    ensures
        !may_act_for(*identity, id@) ==> (r matches Err(e) && e.status == 403
            && e.message@ == "only the agent itself or operator is authorized for this action"@),
        may_act_for(*identity, id@) ==> {
            let m = registry.map();
            if m.contains_key(id@) && m[id@].sup() is Some {
                match chain_of(m, m[id@].sup()->Some_0) {
                    ChainWalk::Done(c) => r matches Ok(v) && v.deep_view() == c,
                    w => r matches Err(e) && chain_error_ok(w, e),
                }
            } else {
                r matches Ok(v) && v@.len() == 0
            }
        },
{
    match registry.require_self_or_operator(identity, id) {
        Ok(()) => {},
        Err(e) => return Err(e),
    }
    match registry.get(id) {
        Some(entry) => match &entry.identity().config.created_by {
            Some(sup) => registry.supervisor_chain_ids(sup),
            None => Ok(Vec::new()),
        },
        None => Ok(Vec::new()),
    }
}

/// What the lock coordinator answered one acquire attempt.
pub enum AcquireOutcome {
    Acquired,
    AlreadyHeld,
    /// Another agent holds an overlapping lock: its id and the path held.
    Busy { holder: String, conflict: String },
    /// The path cannot be locked (canonicalization, cap, self-overlap).
    Refused(String),
}

/// What the acquire loop does after one attempt.
pub enum AcquireStep {
    Reply(AcquireResponse),
    /// Sleep one poll interval and try again.
    Retry,
    Fail(ApiError),
}

pub open spec fn msg_busy_lock(conflict: Seq<char>, holder: Seq<char>) -> Seq<char> {
    "directory write-lock on "@ + conflict + " held by agent "@ + holder
        + "; peer-message the holder to coordinate, then retry"@
}

/// One step of the bounded acquire: success replies at once; a busy
/// lock retries until the deadline, then refuses (`409`) naming the
/// holder for negotiation; a refused path is the caller's to fix
/// (`400`).
pub fn acquire_step(outcome: AcquireOutcome, deadline_passed: bool) -> (s: AcquireStep)
    ensures
        match outcome {
            AcquireOutcome::Acquired => s matches AcquireStep::Reply(r) && r.acquired && !r.already_held && r.holder is None,
            AcquireOutcome::AlreadyHeld => s matches AcquireStep::Reply(r) && r.acquired && r.already_held && r.holder is None,
            AcquireOutcome::Busy { holder, conflict } => if deadline_passed {
                s matches AcquireStep::Fail(e) && e.status == 409 && e.message@ == msg_busy_lock(conflict@, holder@)
            } else {
                s is Retry
            },
            AcquireOutcome::Refused(m) => s matches AcquireStep::Fail(e) && e.status == 400 && e.message@ == m@,
        },
{
    match outcome {
        AcquireOutcome::Acquired => AcquireStep::Reply(AcquireResponse { acquired: true, already_held: false, holder: None }),
        AcquireOutcome::AlreadyHeld => AcquireStep::Reply(AcquireResponse { acquired: true, already_held: true, holder: None }),
        AcquireOutcome::Busy { holder, conflict } => {
            if deadline_passed {
                AcquireStep::Fail(ApiError::conflict(String::from_str("directory write-lock on ").concat(conflict.as_str()).concat(
                    " held by agent ",
                ).concat(holder.as_str()).concat("; peer-message the holder to coordinate, then retry")))
            } else {
                AcquireStep::Retry
            }
        },
        AcquireOutcome::Refused(m) => AcquireStep::Fail(ApiError::bad_request(m)),
    }
}

} // verus!
