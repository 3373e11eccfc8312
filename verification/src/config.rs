//! Durable agent identity: the configuration fields the tagma reads to
//! list, authorize against, relabel, and archive an agent, plus the
//! permission-class reference monitor.
use vstd::prelude::*;
use vstd::string::StringExecFns;
use crate::auth::ApiError;

verus! {

/// Sandbox permission class, ordered `Guest < Normal`.
#[derive(Clone, Copy, Debug, PartialEq, Eq, Structural)]
pub enum PermissionClass {
    Guest,
    Normal,
}

/// How a subagent's workspace relates to its supervisor's write-lock.
#[derive(Clone, Copy, Debug, PartialEq, Eq, Structural)]
pub enum DelegationMode {
    CarveOut,
    FullHandoff,
}

/// Lifecycle state an entry reports. `Faulted` is a display state only:
/// a live agent never stores it.
#[derive(Clone, Copy, Debug, PartialEq, Eq, Structural)]
pub enum AgentState {
    Idle,
    Busy,
    Waiting,
    Parked,
    Retrying,
    Faulted,
}

pub open spec fn class_rank(c: PermissionClass) -> int {
    match c {
        PermissionClass::Guest => 0,
        PermissionClass::Normal => 1,
    }
}

impl PermissionClass {
    /// `self > other` in the class order.
    pub fn exceeds(&self, other: &PermissionClass) -> (b: bool)
        ensures b == (class_rank(*self) > class_rank(*other)),
    {
        match (self, other) {
            (PermissionClass::Normal, PermissionClass::Guest) => true,
            _ => false,
        }
    }

    /// Lowercase wire spelling.
    pub fn as_str(&self) -> (s: &'static str)
        ensures s@ == class_spelling(*self),
    {
        proof {
            reveal_strlit("guest");
            reveal_strlit("normal");
        }
        match self {
            PermissionClass::Guest => "guest",
            PermissionClass::Normal => "normal",
        }
    }
}

pub open spec fn class_spelling(c: PermissionClass) -> Seq<char> {
    match c {
        PermissionClass::Guest => seq!['g', 'u', 'e', 's', 't'],
        PermissionClass::Normal => seq!['n', 'o', 'r', 'm', 'a', 'l'],
    }
}

/// The class a lowercase spelling names, if any.
pub open spec fn parse_class_spec(s: Seq<char>) -> Option<PermissionClass> {
    if s == class_spelling(PermissionClass::Guest) {
        Some(PermissionClass::Guest)
    } else if s == class_spelling(PermissionClass::Normal) {
        Some(PermissionClass::Normal)
    } else {
        None
    }
}

/// Parse a lowercase class spelling (`"normal"` / `"guest"`).
pub fn parse_class(s: &str) -> (c: Option<PermissionClass>)
    ensures c == parse_class_spec(s@),
{
    let g = "guest";
    let n = "normal";
    proof {
        reveal_strlit("guest");
        reveal_strlit("normal");
        assert(g@ =~= class_spelling(PermissionClass::Guest));
        assert(n@ =~= class_spelling(PermissionClass::Normal));
    }
    if str_eq(s, g) {
        Some(PermissionClass::Guest)
    } else if str_eq(s, n) {
        Some(PermissionClass::Normal)
    } else {
        None
    }
}

/// Character-wise string equality.
pub fn str_eq(a: &str, b: &str) -> (r: bool)
    ensures r == (a@ == b@),
{
    let la = a.unicode_len();
    let lb = b.unicode_len();
    if la != lb {
        return false;
    }
    let mut i: usize = 0;
    while i < la
        invariant
            la == a@.len(),
            lb == b@.len(),
            la == lb,
            i <= la,
            forall|j: int| 0 <= j < i ==> a@[j] == b@[j],
        decreases la - i,
    {
        if a.get_char(i) != b.get_char(i) {
            return false;
        }
        i = i + 1;
    }
    assert(a@ =~= b@);
    true
}

/// Parse the optional `permission_class` wire string: absent is no
/// request; a spelling error is a `400 Bad Request`.
pub fn parse_requested_class(raw: &Option<String>) -> (r: Result<Option<PermissionClass>, ApiError>)
    ensures
        match raw {
            None => r == Ok::<Option<PermissionClass>, ApiError>(None),
            Some(s) => match parse_class_spec(s@) {
                Some(c) => r == Ok::<Option<PermissionClass>, ApiError>(Some(c)),
                None => r is Err && r->Err_0.status == 400
                    && r->Err_0.message@ == "unknown permission class (expected normal or guest)"@,
            },
        },
{
    match raw {
        None => Ok(None),
        Some(s) => match parse_class(s.as_str()) {
            Some(c) => Ok(Some(c)),
            None => Err(ApiError::bad_request(
                String::from_str("unknown permission class (expected normal or guest)"),
            )),
        },
    }
}

/// The class a subagent is granted, or `None` when the request is
/// refused: an absent request asks for the tier ceiling; an explicit one
/// may only downgrade, and never above the ceiling nor above the
/// supervisor's own granted class.
pub open spec fn granted_class(
    ceiling: PermissionClass,
    supervisor_class: PermissionClass,
    requested: Option<PermissionClass>,
) -> Option<PermissionClass> {
    let granted = match requested { Some(c) => c, None => ceiling };
    if class_rank(granted) > class_rank(ceiling) || class_rank(granted) > class_rank(supervisor_class) {
        None
    } else {
        Some(granted)
    }
}

/// The reference-monitor decision for a subagent's granted class (see
/// [`granted_class`]); a refusal is a `403` naming the limit it broke,
/// never a silent clamp.
pub fn resolve_granted_class(
    ceiling: PermissionClass,
    supervisor_class: PermissionClass,
    requested: Option<PermissionClass>,
) -> (r: Result<PermissionClass, ApiError>)
    ensures
        match granted_class(ceiling, supervisor_class, requested) {
            Some(g) => r == Ok::<PermissionClass, ApiError>(g),
            None => r is Err,
        },
        ({
            let granted = match requested { Some(c) => c, None => ceiling };
            if class_rank(granted) > class_rank(ceiling) {
                r is Err && r->Err_0.status == 403
                    && r->Err_0.message@ == "requested permission class "@ + class_spelling(granted)
                        + " exceeds tier ceiling "@ + class_spelling(ceiling)
            } else if class_rank(granted) > class_rank(supervisor_class) {
                r is Err && r->Err_0.status == 403
                    && r->Err_0.message@ == "requested permission class "@ + class_spelling(granted)
                        + " exceeds supervisor's "@ + class_spelling(supervisor_class)
            } else {
                r == Ok::<PermissionClass, ApiError>(granted)
            }
        }),
{
    let granted = match requested {
        Some(c) => c,
        None => ceiling,
    };
    if granted.exceeds(&ceiling) {
        let m = String::from_str("requested permission class ").concat(granted.as_str()).concat(" exceeds tier ceiling ").concat(
            ceiling.as_str(),
        );
        return Err(ApiError::forbidden(m));
    }
    if granted.exceeds(&supervisor_class) {
        let m = String::from_str("requested permission class ").concat(granted.as_str()).concat(" exceeds supervisor's ").concat(
            supervisor_class.as_str(),
        );
        return Err(ApiError::forbidden(m));
    }
    Ok(granted)
}

/// Law: a granted class never escalates. Whatever is requested, a
/// grant is at most the tier ceiling and at most the supervisor's own
/// class, and an absent request is granted exactly when the ceiling
/// does not exceed the supervisor.
pub proof fn law_grant_never_escalates(
    ceiling: PermissionClass,
    supervisor_class: PermissionClass,
    requested: Option<PermissionClass>,
)
    ensures
        granted_class(ceiling, supervisor_class, requested) matches Some(g) ==> {
            &&& class_rank(g) <= class_rank(ceiling)
            &&& class_rank(g) <= class_rank(supervisor_class)
        },
        (granted_class(ceiling, supervisor_class, None) is Some)
            <==> class_rank(ceiling) <= class_rank(supervisor_class),
{
}

} // verus!

verus! {

/// The durable configuration fields of one agent.
#[derive(Clone, Debug)]
pub struct AgentConfig {
    /// The supervisor that spawned this agent; `None` marks the root.
    pub created_by: Option<String>,
    pub role: String,
    pub description: String,
    pub workspace_root: String,
    pub permissions_class: PermissionClass,
    /// The recorded profile-set binding, if any.
    pub profile_set: Option<String>,
    pub delegation_mode: DelegationMode,
    /// Remaining delegation depth (`0`: may not spawn subagents).
    pub max_depth: u32,
}

impl AgentConfig {
    /// The supervisor id, as a character sequence.
    pub open spec fn sup(&self) -> Option<Seq<char>> {
        match self.created_by {
            Some(s) => Some(s@),
            None => None,
        }
    }

    /// A field-for-field copy.
    pub fn copy(&self) -> (r: AgentConfig)
        ensures r == *self,
    {
        AgentConfig {
            created_by: crate::team::copy_opt_string(&self.created_by),
            role: self.role.clone(),
            description: self.description.clone(),
            workspace_root: self.workspace_root.clone(),
            permissions_class: self.permissions_class,
            profile_set: crate::team::copy_opt_string(&self.profile_set),
            delegation_mode: self.delegation_mode,
            max_depth: self.max_depth,
        }
    }

    /// A root has no supervisor.
    pub fn is_root(&self) -> (b: bool)
        ensures b == (self.created_by is None),
    {
        self.created_by.is_none()
    }
}

/// Durable identity shared by live and faulted registry entries: the
/// configuration and the on-disk directory.
#[derive(Clone, Debug)]
pub struct AgentIdentity {
    pub config: AgentConfig,
    pub agent_dir: Option<String>,
}

} // verus!
