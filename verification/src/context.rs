//! The agent read routes' lookup rule and the permissions view.
use vstd::prelude::*;
use vstd::string::StringExecFns;
use crate::auth::ApiError;
use crate::config::class_spelling;
use crate::registry::{AgentEntry, AgentRegistry, RegistryEntry};

verus! {

/// The live agent a read route reports on: `404` for an unknown id;
/// `409` with `faulted_msg` for a faulted entry (it has no runtime to
/// read).
pub fn require_live<'a>(registry: &'a AgentRegistry, id: &String, faulted_msg: &str) -> (r: Result<&'a AgentEntry, ApiError>)
    requires registry.wf(),
    ensures
        !registry.map().contains_key(id@) ==> (r matches Err(e) && e.status == 404 && e.message@ == "agent not found"@),
        registry.map().contains_key(id@) ==> match registry.map()[id@] {
            RegistryEntry::Live(x) => r == Ok::<&AgentEntry, ApiError>(&x),
            RegistryEntry::Faulted(_) => r matches Err(e) && e.status == 409 && e.message@ == faulted_msg@,
        },
{
    let entry = match registry.get(id) {
        Some(e) => e,
        None => return Err(ApiError::not_found(String::from_str("agent not found"))),
    };
    match entry.as_live() {
        Some(x) => Ok(x),
        None => Err(ApiError::conflict(String::from_str(faulted_msg))),
    }
}

/// What the permissions route reports of an agent.
#[derive(Clone, Debug)]
pub struct AgentPermissionsView {
    pub max_depth: u32,
    pub workspace_root: String,
    pub created_by: Option<String>,
    /// The lowercase wire spelling of the granted class.
    pub permission_class: String,
}

/// The permissions view of a live agent.
pub fn permissions_of(e: &AgentEntry) -> (v: AgentPermissionsView)
    ensures
        v.max_depth == e.identity.config.max_depth,
        v.workspace_root@ == e.identity.config.workspace_root@,
        v.created_by == e.identity.config.created_by,
        v.permission_class@ == class_spelling(e.identity.config.permissions_class),
{
    let c = &e.identity.config;
    AgentPermissionsView {
        max_depth: c.max_depth,
        workspace_root: c.workspace_root.clone(),
        created_by: crate::team::copy_opt_string(&c.created_by),
        permission_class: String::from_str(c.permissions_class.as_str()),
    }
}

} // verus!
