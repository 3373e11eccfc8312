//! Skills: the lookup rules of the skill routes, and promotion requests
//! (the status filter of the listing, the consistency check an approval
//! runs against the shared skill file, and the notices the root and the
//! requester receive).
use vstd::prelude::*;
use vstd::string::StringExecFns;
use crate::auth::ApiError;
use crate::registry::AgentRegistry;
use crate::agents::may_act_for;
use crate::auth::Identity;
use crate::text::{contains_sub, has_sub};

verus! {

/// Where a promotion request stands.
#[derive(Clone, Copy, Debug, PartialEq, Eq, Structural)]
pub enum SkillPromoteStatus {
    Pending,
    Approved,
    Denied,
}

/// The listing's optional status filter, as spelled on the wire.
#[derive(Clone, Debug)]
pub struct ListPromoteQuery {
    pub status: Option<String>,
}

impl Default for ListPromoteQuery {
    fn default() -> (q: ListPromoteQuery)
        ensures q.status is None,
    {
        ListPromoteQuery { status: None }
    }
}

/// The status a wire spelling names.
pub open spec fn status_spec(s: Seq<char>) -> Option<SkillPromoteStatus> {
    if s == "pending"@ {
        Some(SkillPromoteStatus::Pending)
    } else if s == "approved"@ {
        Some(SkillPromoteStatus::Approved)
    } else if s == "denied"@ {
        Some(SkillPromoteStatus::Denied)
    } else {
        None
    }
}

/// The listing filter: none, or a known status (`400` for any other
/// spelling).
pub fn status_filter(q: &ListPromoteQuery) -> (r: Result<Option<SkillPromoteStatus>, ApiError>)
    ensures
        match q.status {
            None => r == Ok::<Option<SkillPromoteStatus>, ApiError>(None),
            Some(s) => match status_spec(s@) {
                Some(st) => r == Ok::<Option<SkillPromoteStatus>, ApiError>(Some(st)),
                None => r matches Err(e) && e.status == 400
                    && e.message@ == "invalid status filter '"@ + s@ + "'; valid values: pending, approved, denied"@,
            },
        },
{
    match &q.status {
        None => Ok(None),
        Some(s) => {
            if crate::config::str_eq(s.as_str(), "pending") {
                Ok(Some(SkillPromoteStatus::Pending))
            } else if crate::config::str_eq(s.as_str(), "approved") {
                Ok(Some(SkillPromoteStatus::Approved))
            } else if crate::config::str_eq(s.as_str(), "denied") {
                Ok(Some(SkillPromoteStatus::Denied))
            } else {
                Err(ApiError::bad_request(String::from_str("invalid status filter '").concat(s.as_str()).concat(
                    "'; valid values: pending, approved, denied",
                )))
            }
        },
    }
}

/// The shared skill file as an approval finds it.
pub enum SharedSkill {
    /// The file was read with this content.
    Read(String),
    /// The file exists but could not be read.
    ReadFailed(String),
    Missing,
}

/// The approval's consistency check: a request that replaced an existing
/// shared skill needs the file unchanged since submission (`409` when it
/// changed, `500` when it cannot be read); a request that added a new
/// one needs the file still absent (`409`).
pub fn approve_check(skill_name: &String, old_content: &Option<String>, shared: &SharedSkill) -> (r: Result<(), ApiError>)
    ensures
        match old_content {
            Some(old) => match shared {
                SharedSkill::Read(c) => if c@ == old@ {
                    r is Ok
                } else {
                    r matches Err(e) && e.status == 409 && e.message@ == "shared skill '"@ + skill_name@
                        + "' was modified while this request was pending; please resubmit"@
                },
                SharedSkill::ReadFailed(m) => r matches Err(e) && e.status == 500
                    && e.message@ == "failed to read shared skill: "@ + m@,
                SharedSkill::Missing => r matches Err(e) && e.status == 500
                    && e.message@ == "failed to read shared skill: the file is missing"@,
            },
            None => match shared {
                SharedSkill::Missing => r is Ok,
                _ => r matches Err(e) && e.status == 409 && e.message@ == "a shared skill '"@ + skill_name@
                    + "' was created while this request was pending; please resubmit"@,
            },
        },
{
    match old_content {
        Some(old) => match shared {
            SharedSkill::Read(c) => {
                if *c == *old {
                    Ok(())
                } else {
                    Err(ApiError::conflict(String::from_str("shared skill '").concat(skill_name.as_str()).concat(
                        "' was modified while this request was pending; please resubmit",
                    )))
                }
            },
            SharedSkill::ReadFailed(m) => Err(ApiError::internal(String::from_str("failed to read shared skill: ").concat(m.as_str()))),
            SharedSkill::Missing => Err(ApiError::internal(String::from_str(
                "failed to read shared skill: the file is missing",
            ))),
        },
        None => match shared {
            SharedSkill::Missing => Ok(()),
            _ => Err(ApiError::conflict(String::from_str("a shared skill '").concat(skill_name.as_str()).concat(
                "' was created while this request was pending; please resubmit",
            ))),
        },
    }
}

/// The notice the root receives for a new request.
pub fn submit_notice(id: &String, skill_name: &String, request_id: &String) -> (m: String)
    ensures
        m@ == "[Skill Promotion Request] Agent "@ + id@ + " requests to promote skill '"@ + skill_name@
            + "' to the shared directory.\nRequest ID: "@ + request_id@ + "\n\nUse `kallip skill promote approve "@
            + request_id@ + "` to approve\nor `kallip skill promote deny "@ + request_id@ + " <reason>` to deny."@,
{
    String::from_str("[Skill Promotion Request] Agent ").concat(id.as_str()).concat(" requests to promote skill '").concat(
        skill_name.as_str(),
    ).concat("' to the shared directory.\nRequest ID: ").concat(request_id.as_str()).concat(
        "\n\nUse `kallip skill promote approve ",
    ).concat(request_id.as_str()).concat("` to approve\nor `kallip skill promote deny ").concat(request_id.as_str()).concat(
        " <reason>` to deny.",
    )
}

/// The notice the requester receives on approval.
pub fn approved_notice(skill_name: &String) -> (m: String)
    ensures
        m@ == "[Skill Promotion Result] Your request to promote skill '"@ + skill_name@
            + "' has been approved. The skill is now available at the shared directory."@,
{
    String::from_str("[Skill Promotion Result] Your request to promote skill '").concat(skill_name.as_str()).concat(
        "' has been approved. The skill is now available at the shared directory.",
    )
}

/// The placeholder a denial without a reason shows.
pub const NO_REASON_PROVIDED: &'static str = "no reason provided";

/// The notice the requester receives on denial, with the reason or the
/// placeholder.
pub fn denied_notice(reason: &Option<String>) -> (m: String)
    ensures
        m@ == "[Skill Promotion Result] Your request to promote a skill has been denied: "@
            + match reason { Some(r) => r@, None => NO_REASON_PROVIDED@ } + "."@,
{
    let why = match reason {
        Some(r) => r.as_str(),
        None => NO_REASON_PROVIDED,
    };
    String::from_str("[Skill Promotion Result] Your request to promote a skill has been denied: ").concat(why).concat(".")
}

/// The skill routes answer for registered agents only (`404`).
pub fn require_registered(registry: &AgentRegistry, id: &String) -> (r: Result<(), ApiError>)
    requires registry.wf(),
    ensures
        (r is Ok) <==> registry.map().contains_key(id@),
        r matches Err(e) ==> e.status == 404 && e.message@ == "agent not found"@,
{
    if registry.contains_key(id) {
        Ok(())
    } else {
        Err(ApiError::not_found(String::from_str("agent not found")))
    }
}

/// A failed metadata lookup as the route reports it: a refused name
/// (the lookup's message says `invalid skill name` or `reserved skill
/// name`) is the caller's error (`400`, the message passed through);
/// anything else means the skill file is absent (`404`).
pub fn skill_meta_error(skill_name: &str, msg: &str) -> (e: ApiError)
    ensures
        (has_sub(msg@, "invalid skill name"@) || has_sub(msg@, "reserved skill name"@)) ==> e.status == 400
            && e.message@ == msg@,
        !(has_sub(msg@, "invalid skill name"@) || has_sub(msg@, "reserved skill name"@)) ==> e.status == 404
            && e.message@ == "skill '"@ + skill_name@ + "' not found"@,
{
    if contains_sub(msg, "invalid skill name") || contains_sub(msg, "reserved skill name") {
        ApiError::bad_request(String::from_str(msg))
    } else {
        ApiError::not_found(String::from_str("skill '").concat(skill_name).concat("' not found"))
    }
}

/// The checks of a promotion request before any file is read, and the
/// requester's persistent directory they yield: the caller must be the
/// agent or the operator (`403`); the skill name must pass the skill
/// system's validation (`name_error` is its refusal, `400`) and must not
/// be the skill system's own skill `meta_skill` (`400`); the agent must
/// be registered (`404`) and have a persistent directory (`404`).
pub fn submit_checks(
    registry: &AgentRegistry,
    identity: &Identity,
    id: &String,
    skill_name: &String,
    name_error: Option<String>,
    meta_skill: &str,
) -> (r: Result<String, ApiError>)
    requires registry.wf(),
    ensures
        !may_act_for(*identity, id@) ==> (r matches Err(e) && e.status == 403
            && e.message@ == "only the agent itself or operator is authorized for this action"@),
        may_act_for(*identity, id@) ==> match name_error {
            Some(m) => r matches Err(e) && e.status == 400 && e.message@ == m@,
            None => if skill_name@ == meta_skill@ {
                r matches Err(e) && e.status == 400 && e.message@ == "cannot promote the '"@ + meta_skill@
                    + "' skill; it is managed by the skill system"@
            } else if !registry.map().contains_key(id@) {
                r matches Err(e) && e.status == 404 && e.message@ == "agent not found"@
            } else {
                match registry.map()[id@].ident().agent_dir {
                    Some(d) => r matches Ok(x) && x@ == d@,
                    None => r matches Err(e) && e.status == 404 && e.message@ == "agent has no persistent directory"@,
                }
            },
        },
{
    match registry.require_self_or_operator(identity, id) {
        Ok(()) => {},
        Err(e) => return Err(e),
    }
    match name_error {
        Some(m) => return Err(ApiError::bad_request(m)),
        None => {},
    }
    if crate::config::str_eq(skill_name.as_str(), meta_skill) {
        return Err(ApiError::bad_request(
            String::from_str("cannot promote the '").concat(meta_skill).concat("' skill; it is managed by the skill system"),
        ));
    }
    let entry = match registry.get(id) {
        Some(e) => e,
        None => return Err(ApiError::not_found(String::from_str("agent not found"))),
    };
    match &entry.identity().agent_dir {
        Some(d) => Ok(d.clone()),
        None => Err(ApiError::not_found(String::from_str("agent has no persistent directory"))),
    }
}

/// The skill file the request names is absent from the agent's own
/// skills (`404`, naming the path looked at).
pub fn local_skill_missing(skill_name: &String, path: &String) -> (e: ApiError)
    ensures
        e.status == 404,
        e.message@ == "local skill '"@ + skill_name@ + "' not found at "@ + path@,
{
    ApiError::not_found(String::from_str("local skill '").concat(skill_name.as_str()).concat("' not found at ").concat(path.as_str()))
}

/// The local skill file carries no frontmatter with a name (`400`).
pub fn missing_frontmatter(skill_name: &String) -> (e: ApiError)
    ensures
        e.status == 400,
        e.message@ == "skill '"@ + skill_name@ + "' has no valid frontmatter; a 'name' field in YAML frontmatter is required"@,
{
    ApiError::bad_request(String::from_str("skill '").concat(skill_name.as_str()).concat(
        "' has no valid frontmatter; a 'name' field in YAML frontmatter is required",
    ))
}

} // verus!
