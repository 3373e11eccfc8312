//! Declarative team management: the declared roles, the role-to-id
//! lock records, and the vocabulary the status comparison and the
//! converge planner share.
use vstd::prelude::*;

pub mod converge;
pub mod execute;
pub mod laws;
pub mod restore;
pub mod run;
pub mod status;

verus! {

/// One declared role of a team declaration.
#[derive(Clone, Debug)]
pub struct RoleDeclaration {
    pub name: String,
    /// Empty means "declaration silent", never "clear this".
    pub description: String,
    pub profile_set: Option<String>,
    /// The declared permission-class spelling, checked when used.
    pub permission_class: Option<String>,
    pub prompt: Option<String>,
    pub skills: Vec<String>,
    /// A hands-off role: visible in the status table, never touched.
    pub unmanaged: bool,
}

/// The value of a [`RoleDeclaration`], field by field.
pub ghost struct RoleDeclView {
    pub name: Seq<char>,
    pub description: Seq<char>,
    pub profile_set: Option<Seq<char>>,
    pub permission_class: Option<Seq<char>>,
    pub prompt: Option<Seq<char>>,
    pub skills: Seq<Seq<char>>,
    pub unmanaged: bool,
}

pub open spec fn opt_view(o: Option<String>) -> Option<Seq<char>> {
    match o {
        Some(s) => Some(s@),
        None => None,
    }
}

impl View for RoleDeclaration {
    type V = RoleDeclView;

    open spec fn view(&self) -> RoleDeclView {
        RoleDeclView {
            name: self.name@,
            description: self.description@,
            profile_set: opt_view(self.profile_set),
            permission_class: opt_view(self.permission_class),
            prompt: opt_view(self.prompt),
            skills: self.skills.deep_view(),
            unmanaged: self.unmanaged,
        }
    }
}

pub fn copy_opt_string(o: &Option<String>) -> (r: Option<String>)
    ensures r == *o, opt_view(r) == opt_view(*o),
{
    match o {
        Some(s) => Some(s.clone()),
        None => None,
    }
}

pub fn copy_strings(v: &Vec<String>) -> (r: Vec<String>)
    ensures r.deep_view() == v.deep_view(),
{
    let mut out: Vec<String> = Vec::new();
    let mut i: usize = 0;
    while i < v.len()
        invariant
            i <= v.len(),
            out@.len() == i,
            forall|j: int| 0 <= j < i ==> #[trigger] out@[j]@ == v@[j]@,
        decreases v.len() - i,
    {
        out.push(v[i].clone());
        i = i + 1;
    }
    proof { assert(out.deep_view() =~= v.deep_view()); }
    out
}

impl RoleDeclaration {
    /// A field-for-field copy.
    pub fn copy(&self) -> (r: RoleDeclaration)
        ensures r@ == self@,
    {
        RoleDeclaration {
            name: self.name.clone(),
            description: self.description.clone(),
            profile_set: copy_opt_string(&self.profile_set),
            permission_class: copy_opt_string(&self.permission_class),
            prompt: copy_opt_string(&self.prompt),
            skills: copy_strings(&self.skills),
            unmanaged: self.unmanaged,
        }
    }
}

/// A parsed team declaration: its roles, in the author's order.
#[derive(Clone, Debug)]
pub struct TeamDeclaration {
    pub roles: Vec<RoleDeclaration>,
}

/// The presence-level verdict for one role of the three-way comparison.
#[derive(Clone, Copy, Debug, PartialEq, Eq, Structural)]
pub enum RoleDisposition {
    /// Declared, live, and recorded in the lock.
    Active,
    /// Declared and live, but the lock does not know the body.
    Adopt,
    /// Declared, absent, and the lock id is parked in the inactive area.
    Restore,
    /// Declared, absent, nothing to restore.
    Spawn,
    /// Live but no longer declared.
    Deactivate,
    /// An unmanaged role with a live body: visible, never touched.
    Exempt,
    /// More than one live body carries the role.
    Duplicate,
    /// Nothing to do.
    Retain,
}

/// One row of the status table.
#[derive(Clone, Debug)]
pub struct TeamRoleStatus {
    pub role: String,
    pub declaration: Option<RoleDeclaration>,
    pub lock_id: Option<String>,
    /// The lock id is live under another role (root included).
    pub lock_drift: bool,
    pub lock_inactive: bool,
    /// The declaration names the reserved role `root`.
    pub root_conflict: bool,
    pub live: Vec<String>,
    pub disposition: RoleDisposition,
}

/// The executable verb a converge plan row carries.
#[derive(Clone, Copy, Debug, PartialEq, Eq, Structural)]
pub enum TeamAction {
    Spawn,
    Restore,
    Adopt,
    AlignMetadata,
    Deactivate,
    Retain,
}

/// Why preflight refuses a whole converge batch.
#[derive(Clone, Copy, Debug, PartialEq, Eq, Structural)]
pub enum TeamRejectionKind {
    LockAmbiguity,
    RootRole,
    Duplicate,
    Busy,
    LiveChildren,
    StaleInactive,
    SpawnRootDown,
    SpawnProfileSet,
    SpawnProfileClass,
    SpawnSkill,
    CapacityAgents,
    CapacityChildren,
}

/// One preflight refusal, with its guidance.
#[derive(Clone, Debug)]
pub struct TeamRejection {
    pub kind: TeamRejectionKind,
    pub message: String,
}

/// One role-to-id binding of the converge lock mapping.
#[derive(Clone, Debug)]
pub struct TeamLockEntry {
    pub role: String,
    pub id: String,
    pub converged_at: String,
}

/// How an executed plan row landed.
#[derive(Clone, Copy, Debug, PartialEq, Eq, Structural)]
pub enum TeamRowOutcome {
    Applied,
    Failed,
}

/// The report row of one executed plan row.
#[derive(Clone, Debug)]
pub struct TeamActionResult {
    pub role: String,
    pub action: TeamAction,
    pub agent_id: Option<String>,
    pub outcome: TeamRowOutcome,
    pub detail: String,
    pub notes: Vec<String>,
}

/// The verdict of a whole converge request.
#[derive(Clone, Copy, Debug, PartialEq, Eq, Structural)]
pub enum TeamConvergeOutcome {
    Rejected,
    Planned,
    Applied,
    Aborted,
}

} // verus!
