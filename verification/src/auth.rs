//! Caller identities and the API error shape every route returns.
use vstd::prelude::*;
use vstd::string::StringExecFns;

verus! {

/// The authenticated caller of a request: the operator token, or one
/// agent's own token.
#[derive(Clone, Debug, PartialEq, Eq)]
pub enum Identity {
    Operator,
    Agent { id: String },
}

/// A route failure: the HTTP status and a human-readable message.
/// `dangling` carries the stranded profile-set bindings of a structured
/// conflict (`None` on every other error).
#[derive(Clone, Debug)]
pub struct ApiError {
    pub status: u16,
    pub message: String,
    pub dangling: Option<Vec<String>>,
}

impl ApiError {
    /// `400 Bad Request`: the caller's input is malformed.
    pub fn bad_request(message: String) -> (e: ApiError)
        ensures e.status == 400, e.message@ == message@, e.dangling is None,
    {
        ApiError { status: 400, message, dangling: None }
    }

    /// `401 Unauthorized`.
    pub fn unauthorized(message: String) -> (e: ApiError)
        ensures e.status == 401, e.message@ == message@, e.dangling is None,
    {
        ApiError { status: 401, message, dangling: None }
    }

    /// `403 Forbidden`: authenticated, but not allowed.
    pub fn forbidden(message: String) -> (e: ApiError)
        ensures e.status == 403, e.message@ == message@, e.dangling is None,
    {
        ApiError { status: 403, message, dangling: None }
    }

    /// `404 Not Found`.
    pub fn not_found(message: String) -> (e: ApiError)
        ensures e.status == 404, e.message@ == message@, e.dangling is None,
    {
        ApiError { status: 404, message, dangling: None }
    }

    /// `409 Conflict`: the current state refuses the request.
    pub fn conflict(message: String) -> (e: ApiError)
        ensures e.status == 409, e.message@ == message@, e.dangling is None,
    {
        ApiError { status: 409, message, dangling: None }
    }

    /// `409 Conflict` carrying the stranded bindings.
    pub fn conflict_dangling(message: String, dangling: Vec<String>) -> (e: ApiError)
        ensures
            e.status == 409,
            e.message@ == message@,
            e.dangling == Some(dangling),
    {
        ApiError { status: 409, message, dangling: Some(dangling) }
    }

    /// `429 Too Many Requests`.
    pub fn too_many_requests(message: String) -> (e: ApiError)
        ensures e.status == 429, e.message@ == message@, e.dangling is None,
    {
        ApiError { status: 429, message, dangling: None }
    }

    /// `500 Internal Server Error`.
    pub fn internal(message: String) -> (e: ApiError)
        ensures e.status == 500, e.message@ == message@, e.dangling is None,
    {
        ApiError { status: 500, message, dangling: None }
    }

    /// `502 Bad Gateway`.
    pub fn bad_gateway(message: String) -> (e: ApiError)
        ensures e.status == 502, e.message@ == message@, e.dangling is None,
    {
        ApiError { status: 502, message, dangling: None }
    }

    /// `503 Service Unavailable`.
    pub fn unavailable(message: String) -> (e: ApiError)
        ensures e.status == 503, e.message@ == message@, e.dangling is None,
    {
        ApiError { status: 503, message, dangling: None }
    }
}

/// Operator-only gate: `403` for any agent token.
pub fn require_operator(identity: &Identity) -> (r: Result<(), ApiError>)
    ensures
        (r is Ok) <==> (identity is Operator),
        r is Err ==> r->Err_0.status == 403 && r->Err_0.message@ == "operator token required"@,
{
    match identity {
        Identity::Operator => Ok(()),
        Identity::Agent { .. } => Err(ApiError::forbidden(String::from_str("operator token required"))),
    }
}

/// The event actor for a task verb: the agent id for agent tokens, the
/// literal `operator` for the operator token. Callers cannot claim an
/// actor; the tagma records who called.
pub fn acting_agent(identity: &Identity) -> (actor: String)
    ensures
        match identity {
            Identity::Operator => actor@ == "operator"@,
            Identity::Agent { id } => actor@ == id@,
        },
{
    match identity {
        Identity::Operator => "operator".to_string(),
        Identity::Agent { id } => id.clone(),
    }
}

/// `GET /agents/{id}/verify`: the bearer matches the named agent id
/// (`204`), or `401` (an operator bearer matches no agent id).
pub fn verify_agent(identity: &Identity, id: &String) -> (r: Result<u16, ApiError>)
    ensures
        match identity {
            Identity::Agent { id: aid } if aid@ == id@ => r == Ok::<u16, ApiError>(204),
            _ => r is Err && r->Err_0.status == 401
                && r->Err_0.message@ == "agent id does not match token"@,
        },
{
    match identity {
        Identity::Agent { id: aid } => {
            if *aid == *id {
                Ok(204)
            } else {
                Err(ApiError::unauthorized("agent id does not match token".to_string()))
            }
        },
        Identity::Operator => Err(ApiError::unauthorized("agent id does not match token".to_string())),
    }
}

} // verus!
