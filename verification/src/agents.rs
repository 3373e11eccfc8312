//! The decisions behind the agent routes: spawning a subagent under a
//! supervisor, relabelling, activity reports, removal and interrupt,
//! and the agent listing.
use vstd::prelude::*;
use vstd::string::StringExecFns;
use crate::auth::{ApiError, Identity, require_operator};
use crate::config::{AgentConfig, AgentState, DelegationMode, PermissionClass, class_rank, resolve_granted_class};
use crate::registry::{
    AgentRegistry, ChainWalk, RegistryEntry, chain_error_ok, chain_of, first_root, lemma_first_root,
    not_authorized_msg, supervised_on_chain,
    tokens_after_unregister, unregistered_as,
};
use crate::team::opt_view;
use crate::team::status::{all_ws, is_ws};
use crate::text::{chars_of, truncate_chars, truncated, MAX_ACTIVITY_CHARS};

verus! {

/// Whether an agent takes external messages now or buffers them.
#[derive(Clone, Copy, Debug, PartialEq, Eq, Structural)]
pub enum DutyStatus {
    OnDuty,
    OffDuty,
}

/// Request body for setting an agent's duty status.
#[derive(Clone, Copy, Debug, PartialEq, Eq, Structural)]
pub struct UpdateDutyRequest {
    pub status: DutyStatus,
}

/// The per-agent summary the listing and the relabel responses carry.
#[derive(Clone, Debug)]
pub struct AgentSummary {
    pub id: String,
    pub workspace_root: String,
    pub state: AgentState,
    pub created_by: Option<String>,
    pub role: String,
    pub description: String,
    pub profile_set: Option<String>,
    /// The live activity; empty for a faulted entry.
    pub activity: String,
    pub duty: DutyStatus,
    /// Whether the agent holds its workspace write-lock (see
    /// [`lock_visibility`]); `None` on summaries built without the probe.
    pub lock: Option<LockState>,
    pub faulted_reason: Option<String>,
    pub state_since: u64,
}

/// What the workspace lock probe found for an agent that should hold one.
#[derive(Clone, Copy, Debug, PartialEq, Eq, Structural)]
pub enum LockState {
    Held,
    /// The agent should hold the lock and does not: the lock evaporated.
    Missing,
}

/// `s` is the summary of entry `(id, e)` with duty `duty`.
pub open spec fn summary_of(s: AgentSummary, id: Seq<char>, e: RegistryEntry, duty: DutyStatus) -> bool {
    let c = e.ident().config;
    &&& s.id@ == id
    &&& s.workspace_root@ == c.workspace_root@
    &&& s.created_by == c.created_by
    &&& s.role@ == c.role@
    &&& s.description@ == c.description@
    &&& s.profile_set == c.profile_set
    &&& s.duty == duty
    &&& s.lock is None
    &&& match e {
        RegistryEntry::Live(x) => s.state == x.agent.state && s.activity@ == x.agent.activity@
            && s.faulted_reason is None && s.state_since == x.agent.state_since,
        RegistryEntry::Faulted(x) => s.state == AgentState::Faulted && s.activity@ == Seq::<char>::empty()
            && s.faulted_reason == Some(x.reason) && s.state_since == x.at,
    }
}

/// Build the summary of one entry.
pub fn summary(id: &String, e: &RegistryEntry, duty: DutyStatus) -> (s: AgentSummary)
    ensures summary_of(s, id@, *e, duty),
{
    let c = &e.identity().config;
    let (state, activity, faulted_reason, state_since) = match e {
        RegistryEntry::Live(x) => (x.agent.state, x.agent.activity.clone(), None, x.agent.state_since),
        RegistryEntry::Faulted(x) => (AgentState::Faulted, String::new(), Some(x.reason.clone()), x.at),
    };
    AgentSummary {
        id: id.clone(),
        workspace_root: c.workspace_root.clone(),
        state,
        created_by: crate::team::copy_opt_string(&c.created_by),
        role: c.role.clone(),
        description: c.description.clone(),
        profile_set: crate::team::copy_opt_string(&c.profile_set),
        activity,
        duty,
        lock: None,
        faulted_reason,
        state_since,
    }
}

/// The lock an agent is expected to hold, given the probe's answer
/// `held` for its workspace root: guests never lock and faulted agents
/// hold nothing (`None`); any other agent reports `Held` or, when the
/// probe finds no lock, `Missing`.
pub open spec fn lock_spec(e: RegistryEntry, held: bool) -> Option<LockState> {
    let faulted = match e {
        RegistryEntry::Live(x) => x.agent.state == AgentState::Faulted,
        RegistryEntry::Faulted(_) => true,
    };
    if faulted || e.ident().config.permissions_class != PermissionClass::Normal {
        None
    } else if held {
        Some(LockState::Held)
    } else {
        Some(LockState::Missing)
    }
}

/// See [`lock_spec`].
pub fn lock_visibility(e: &RegistryEntry, held: bool) -> (r: Option<LockState>)
    ensures r == lock_spec(*e, held),
{
    if e.state_for_summary() == AgentState::Faulted
        || e.identity().config.permissions_class != PermissionClass::Normal
    {
        return None;
    }
    if held { Some(LockState::Held) } else { Some(LockState::Missing) }
}

/// The summary every route returns: the entry's summary joined with its
/// duty-board reading and its lock visibility.
pub fn summarize(id: &String, e: &RegistryEntry, duty: DutyStatus, held: bool) -> (s: AgentSummary)
    ensures
        summary_of(AgentSummary { lock: None, ..s }, id@, *e, duty),
        s.lock == lock_spec(*e, held),
{
    let mut s = summary(id, e, duty);
    s.lock = lock_visibility(e, held);
    s
}

/// The listing filter: every entry, or only the direct subagents of
/// `created_by`.
pub open spec fn listed(e: RegistryEntry, created_by: Option<Seq<char>>) -> bool {
    match created_by {
        None => true,
        Some(sup) => e.sup() == Some(sup),
    }
}

pub open spec fn listed_ids(l: Seq<(String, RegistryEntry)>, created_by: Option<Seq<char>>) -> Seq<Seq<char>>
    decreases l.len(),
{
    if l.len() == 0 {
        Seq::empty()
    } else {
        let prev = listed_ids(l.drop_last(), created_by);
        if listed(l.last().1, created_by) { prev.push(l.last().0@) } else { prev }
    }
}

/// The duty the board reports for `id`: its last entry for `id`, or on
/// duty when the board has none.
pub open spec fn duty_for(d: Seq<(String, DutyStatus)>, id: Seq<char>) -> DutyStatus
    decreases d.len(),
{
    if d.len() == 0 {
        DutyStatus::OnDuty
    } else if d.last().0@ == id {
        d.last().1
    } else {
        duty_for(d.drop_last(), id)
    }
}

/// The agents a listing shows, in registry order, with their summaries
/// and the duty the board reports for each.
pub fn list_agents(registry: &AgentRegistry, created_by: &Option<String>, duty_of: &Vec<(String, DutyStatus)>) -> (r: Vec<AgentSummary>)
    ensures
        r@.map_values(|s: AgentSummary| s.id@) == listed_ids(registry.listing(), opt_view(*created_by)),
        forall|k: int| 0 <= k < r@.len() ==> exists|j: int| 0 <= j < registry.listing().len()
            && registry.listing()[j].0@ == (#[trigger] r@[k]).id@
            && summary_of(r@[k], registry.listing()[j].0@, registry.listing()[j].1, r@[k].duty),
        forall|k: int| 0 <= k < r@.len() ==> (#[trigger] r@[k]).duty == duty_for(duty_of@, r@[k].id@),
{
    let entries = registry.iter();
    let ghost l = registry.listing();
    let ghost cb = opt_view(*created_by);
    let mut out: Vec<AgentSummary> = Vec::new();
    let mut i: usize = 0;
    proof { assert(out@.map_values(|s: AgentSummary| s.id@) =~= listed_ids(l.take(0), cb)); }
    while i < entries.len()
        invariant
            entries@ == l,
            l == registry.listing(),
            cb == opt_view(*created_by),
            i <= entries.len(),
            out@.map_values(|s: AgentSummary| s.id@) == listed_ids(l.take(i as int), cb),
            forall|k: int| 0 <= k < out@.len() ==> exists|j: int| 0 <= j < l.len()
                && l[j].0@ == (#[trigger] out@[k]).id@ && summary_of(out@[k], l[j].0@, l[j].1, out@[k].duty),
            forall|k: int| 0 <= k < out@.len() ==> (#[trigger] out@[k]).duty == duty_for(duty_of@, out@[k].id@),
        decreases entries.len() - i,
    {
        proof {
            assert(l.take(i + 1).drop_last() =~= l.take(i as int));
            assert(l.take(i + 1).last() == l[i as int]);
        }
        let (id, e) = (&entries[i].0, &entries[i].1);
        let keep = match created_by {
            None => true,
            Some(sup) => match &e.identity().config.created_by {
                Some(c) => *c == *sup,
                None => false,
            },
        };
        if keep {
            let mut duty = DutyStatus::OnDuty;
            let mut k: usize = 0;
            while k < duty_of.len()
                invariant
                    k <= duty_of.len(),
                    duty == duty_for(duty_of@.take(k as int), id@),
                decreases duty_of.len() - k,
            {
                proof {
                    assert(duty_of@.take(k + 1).drop_last() =~= duty_of@.take(k as int));
                    assert(duty_of@.take(k + 1).last() == duty_of@[k as int]);
                }
                if duty_of[k].0 == *id {
                    duty = duty_of[k].1;
                }
                k = k + 1;
            }
            proof { assert(duty_of@.take(k as int) =~= duty_of@); }
            let s = summary(id, e, duty);
            let ghost pre = out@.map_values(|s: AgentSummary| s.id@);
            out.push(s);
            proof {
                assert(out@.map_values(|s: AgentSummary| s.id@) =~= pre.push(id@));
                assert(summary_of(out@[out@.len() - 1], l[i as int].0@, l[i as int].1, out@[out@.len() - 1].duty));
            }
        }
        i = i + 1;
    }
    proof { assert(l.take(i as int) =~= l); }
    out
}

// ---- spawning a subagent ----

/// A spawn request's tool-round budget.
#[derive(Clone, Copy, Debug, PartialEq, Eq, Structural)]
pub enum MaxToolRounds {
    Unlimited,
    Limited(usize),
}

/// The wire spellings of the delegation modes.
pub open spec fn delegation_spec(s: Seq<char>) -> Option<DelegationMode> {
    if s == "carve_out"@ {
        Some(DelegationMode::CarveOut)
    } else if s == "full_handoff"@ {
        Some(DelegationMode::FullHandoff)
    } else {
        None
    }
}

pub open spec fn msg_bad_mode(s: Seq<char>) -> Seq<char> {
    "unknown delegation mode '"@ + s + "' (expected carve_out or full_handoff)"@
}

/// Parse a delegation mode; absent is carve-out.
pub fn parse_delegation_mode(raw: &Option<String>) -> (r: Result<DelegationMode, ApiError>)
    ensures
        match raw {
            None => r == Ok::<DelegationMode, ApiError>(DelegationMode::CarveOut),
            Some(s) => match delegation_spec(s@) {
                Some(m) => r == Ok::<DelegationMode, ApiError>(m),
                None => r matches Err(e) && e.status == 400 && e.message@ == msg_bad_mode(s@),
            },
        },
{
    match raw {
        None => Ok(DelegationMode::CarveOut),
        Some(s) => {
            if crate::config::str_eq(s.as_str(), "carve_out") {
                Ok(DelegationMode::CarveOut)
            } else if crate::config::str_eq(s.as_str(), "full_handoff") {
                Ok(DelegationMode::FullHandoff)
            } else {
                Err(ApiError::bad_request(String::from_str("unknown delegation mode '").concat(s.as_str()).concat(
                    "' (expected carve_out or full_handoff)",
                )))
            }
        },
    }
}

/// The verdict of the request-only spawn checks: the supervisor id and
/// delegation mode, or the status and message of the refusal.
pub open spec fn spawn_request_spec(
    created_by: Option<Seq<char>>,
    max_tool_rounds: Option<MaxToolRounds>,
    delegation_mode: Option<Seq<char>>,
    role: Seq<char>,
) -> Result<(Seq<char>, DelegationMode), (u16, Seq<char>)> {
    match created_by {
        None => Err((409u16, "root agent is managed by the tagma; spawn a subagent with 'created_by' set"@)),
        Some(sup) => if max_tool_rounds == Some(MaxToolRounds::Limited(0)) {
            Err((400u16, "max_tool_rounds must be greater than zero"@))
        } else {
            let mode = match delegation_mode {
                None => Some(DelegationMode::CarveOut),
                Some(m) => delegation_spec(m),
            };
            match mode {
                None => Err((400u16, msg_bad_mode(delegation_mode->Some_0))),
                Some(md) => if all_ws(role) {
                    Err((400u16, "subagent requires a non-empty 'role'"@))
                } else {
                    Ok((sup, md))
                },
            }
        },
    }
}

/// The request-only checks of a subagent spawn, before any registry
/// read: a request without `created_by` would create a root (`409`, the
/// root is tagma-managed); a limited tool-round budget must be positive;
/// the delegation mode must parse; the role must not be blank (`400`).
/// On success, the supervisor id and the delegation mode.
pub fn check_spawn_request(
    created_by: &Option<String>,
    max_tool_rounds: Option<MaxToolRounds>,
    delegation_mode: &Option<String>,
    role: &String,
) -> (r: Result<(String, DelegationMode), ApiError>)
    ensures
        match spawn_request_spec(opt_view(*created_by), max_tool_rounds, opt_view(*delegation_mode), role@) {
            Ok(v) => r matches Ok(x) && x.0@ == v.0 && x.1 == v.1,
            Err(f) => r matches Err(e) && e.status == f.0 && e.message@ == f.1,
        },
{
    let sup = match created_by {
        None => {
            return Err(ApiError::conflict(String::from_str(
                "root agent is managed by the tagma; spawn a subagent with 'created_by' set",
            )));
        },
        Some(s) => s,
    };
    if max_tool_rounds == Some(MaxToolRounds::Limited(0)) {
        return Err(ApiError::bad_request(String::from_str("max_tool_rounds must be greater than zero")));
    }
    let mode = match parse_delegation_mode(delegation_mode) {
        Ok(m) => m,
        Err(e) => return Err(e),
    };
    let cs = chars_of(role.as_str());
    let mut i: usize = 0;
    let mut blank = true;
    while i < cs.len()
        invariant
            cs@ == role@,
            i <= cs.len(),
            blank == forall|j: int| 0 <= j < i ==> crate::team::status::ws_char(#[trigger] role@[j]),
        decreases cs.len() - i,
    {
        if !is_ws(cs[i]) {
            blank = false;
        }
        i = i + 1;
    }
    if blank {
        return Err(ApiError::bad_request(String::from_str("subagent requires a non-empty 'role'")));
    }
    Ok((sup.clone(), mode))
}

/// The components of a path: a root marker for an absolute path, then
/// its non-empty `/`-separated pieces.
pub open spec fn path_components(p: Seq<char>) -> Seq<Seq<char>> {
    let pieces = crate::team::status::split_on(p, '/').filter(|x: Seq<char>| x.len() > 0);
    if p.len() > 0 && p[0] == '/' { seq![seq!['/']] + pieces } else { pieces }
}

/// `child` lies within `parent`, component-wise.
pub open spec fn path_within(child: Seq<char>, parent: Seq<char>) -> bool {
    let c = path_components(child);
    let p = path_components(parent);
    p.len() <= c.len() && c.take(p.len() as int) == p
}

fn components(p: &String) -> (r: Vec<String>)
    ensures r.deep_view() == path_components(p@),
{
    let pieces = crate::team::status::split_on_char(p.as_str(), '/');
    let ghost all = crate::team::status::split_on(p@, '/');
    let mut out: Vec<String> = Vec::new();
    let cs = chars_of(p.as_str());
    if cs.len() > 0 && cs[0] == '/' {
        let slash = String::from_str("/");
        proof {
            reveal_strlit("/");
            assert(slash@ =~= seq!['/']);
        }
        out.push(slash);
        proof {
            assert(out.deep_view()[0] == out@[0]@);
            assert(out.deep_view() =~= seq![seq!['/']]);
        }
    }
    let ghost base = out.deep_view();
    let mut i: usize = 0;
    proof {
        assert(all.take(0).filter(|x: Seq<char>| x.len() > 0) =~= Seq::<Seq<char>>::empty());
        assert(out.deep_view() =~= base + all.take(0).filter(|x: Seq<char>| x.len() > 0));
    }
    while i < pieces.len()
        invariant
            pieces.deep_view() == all,
            i <= pieces.len(),
            out.deep_view() == base + all.take(i as int).filter(|x: Seq<char>| x.len() > 0),
        decreases pieces.len() - i,
    {
        proof {
            reveal(Seq::filter);
            assert(all.take(i + 1).drop_last() =~= all.take(i as int));
            assert(all.take(i + 1).last() == pieces@[i as int]@);
        }
        if pieces[i].as_str().unicode_len() > 0 {
            let ghost pre = out.deep_view();
            out.push(pieces[i].clone());
            proof { assert(out.deep_view() =~= pre.push(pieces@[i as int]@)); }
        }
        i = i + 1;
    }
    proof { assert(all.take(i as int) =~= all); }
    out
}

/// Whether `child` lies within `parent`, component-wise.
pub fn is_within(child: &String, parent: &String) -> (b: bool)
    ensures b == path_within(child@, parent@),
{
    let c = components(child);
    let p = components(parent);
    if p.len() > c.len() {
        return false;
    }
    let mut i: usize = 0;
    while i < p.len()
        invariant
            c.deep_view() == path_components(child@),
            p.deep_view() == path_components(parent@),
            p.len() <= c.len(),
            i <= p.len(),
            forall|k: int| 0 <= k < i ==> c.deep_view()[k] == p.deep_view()[k],
        decreases p.len() - i,
    {
        proof {
            assert(c.deep_view()[i as int] == c@[i as int]@);
            assert(p.deep_view()[i as int] == p@[i as int]@);
        }
        if c[i] != p[i] {
            proof { assert(c.deep_view().take(p.len() as int)[i as int] != p.deep_view()[i as int]); }
            return false;
        }
        i = i + 1;
    }
    proof { assert(c.deep_view().take(p.len() as int) =~= p.deep_view()); }
    true
}

/// Whether two paths have the same components.
pub fn same_path(a: &String, b: &String) -> (r: bool)
    ensures r == (path_components(a@) == path_components(b@)),
{
    let x = components(a);
    let y = components(b);
    if x.len() != y.len() {
        proof { assert(x.deep_view().len() != y.deep_view().len()); }
        return false;
    }
    let mut i: usize = 0;
    while i < x.len()
        invariant
            x.deep_view() == path_components(a@),
            y.deep_view() == path_components(b@),
            x.len() == y.len(),
            i <= x.len(),
            forall|k: int| 0 <= k < i ==> x.deep_view()[k] == y.deep_view()[k],
        decreases x.len() - i,
    {
        proof {
            assert(x.deep_view()[i as int] == x@[i as int]@);
            assert(y.deep_view()[i as int] == y@[i as int]@);
        }
        if x[i] != y[i] {
            proof { assert(x.deep_view()[i as int] != y.deep_view()[i as int]); }
            return false;
        }
        i = i + 1;
    }
    proof { assert(x.deep_view() =~= y.deep_view()); }
    true
}

/// Whether some child of `kids` is registered with a full-handoff
/// delegation.
pub open spec fn has_handoff_child(m: Map<Seq<char>, RegistryEntry>, kids: Seq<Seq<char>>) -> bool {
    exists|i: int| 0 <= i < kids.len() && m.contains_key(#[trigger] kids[i])
        && m[kids[i]].ident().config.delegation_mode == DelegationMode::FullHandoff
}

/// The supervisor-side verdict on a subagent spawn, once the caller is
/// known to be allowed: the status and message of a refusal, or the
/// workspace and the granted class.
pub open spec fn subagent_spec(
    m: Map<Seq<char>, RegistryEntry>,
    sup: RegistryEntry,
    ws: Result<Seq<char>, Seq<char>>,
    requested: Option<PermissionClass>,
    mode: DelegationMode,
    ceiling: PermissionClass,
) -> Result<(Seq<char>, PermissionClass), (u16, Seq<char>)> {
    let c = sup.ident().config;
    let granted = match requested { Some(x) => x, None => ceiling };
    if sup is Faulted {
        Err((409u16, "supervisor is faulted; cannot spawn subagents"@))
    } else if mode == DelegationMode::FullHandoff && sup.kids().len() > 0 {
        Err((409u16, "a full-handoff subagent requires the supervisor to have no other subagents; remove them first"@))
    } else if has_handoff_child(m, sup.kids()) {
        Err((409u16, "supervisor already has a full-handoff subagent; remove it before spawning others"@))
    } else if c.max_depth == 0 {
        Err((403u16, "supervisor has no remaining delegation depth"@))
    } else {
        match ws {
            Err(e) => Err((400u16, "invalid workspace_root: "@ + e)),
            Ok(w) => { if !path_within(w, c.workspace_root@) {
                Err((403u16, "workspace_root must be within supervisor's workspace"@))
            } else if mode == DelegationMode::FullHandoff && path_components(w) != path_components(c.workspace_root@) {
                Err((400u16, "full_handoff requires the subagent workspace to be the supervisor's entire workspace root"@))
            } else if class_rank(granted) > class_rank(ceiling) {
                Err((403u16, "requested permission class "@ + crate::config::class_spelling(granted)
                    + " exceeds tier ceiling "@ + crate::config::class_spelling(ceiling)))
            } else if class_rank(granted) > class_rank(c.permissions_class) {
                Err((403u16, "requested permission class "@ + crate::config::class_spelling(granted)
                    + " exceeds supervisor's "@ + crate::config::class_spelling(c.permissions_class)))
            } else if mode == DelegationMode::FullHandoff && granted != PermissionClass::Normal {
                Err((400u16, "full-handoff requires permission_class normal (a Guest is readonly and cannot hold the workspace write-lock)"@))
            } else {
                Ok((w, granted))
            } },
        }
    }
}

/// The operator acts for anyone; an agent for itself.
pub open spec fn may_act_for(identity: Identity, id: Seq<char>) -> bool {
    match identity {
        Identity::Operator => true,
        Identity::Agent { id: a } => a@ == id,
    }
}

/// Validate a subagent spawn against its supervisor: the caller must be
/// the operator or the supervisor (`404`/`403` otherwise, as
/// [`AgentRegistry::require_supervisor`] decides), then [`subagent_spec`]
/// in order. `workspace` is the requested workspace as the filesystem
/// canonicalized it (or the reason it could not); `ceiling` is the
/// class ceiling of the child's model tier.
pub fn validate_subagent_request(
    registry: &AgentRegistry,
    identity: &Identity,
    supervisor_id: &String,
    workspace: &Result<String, String>,
    requested: Option<PermissionClass>,
    mode: DelegationMode,
    ceiling: PermissionClass,
) -> (r: Result<(String, PermissionClass), ApiError>)
    requires registry.wf(),
    ensures
        !registry.map().contains_key(supervisor_id@) ==> (r matches Err(e) && e.status == 404
            && e.message@ == "supervisor agent "@ + supervisor_id@ + " not found"@),
        registry.map().contains_key(supervisor_id@) && !may_act_for(*identity, supervisor_id@)
            ==> (r matches Err(e) && e.status == 403 && e.message@ == "invalid auth token for supervisor agent"@),
        registry.map().contains_key(supervisor_id@) && may_act_for(*identity, supervisor_id@) ==> (match subagent_spec(
            registry.map(),
            registry.map()[supervisor_id@],
            match workspace { Ok(w) => Ok(w@), Err(e) => Err(e@) },
            requested,
            mode,
            ceiling,
        ) {
            Ok(v) => r matches Ok(x) && x.0@ == v.0 && x.1 == v.1,
            Err(f) => r matches Err(e) && e.status == f.0 && e.message@ == f.1,
        }),
{
    let sup = match registry.require_supervisor(identity, supervisor_id) {
        Ok(e) => e,
        Err(e) => return Err(e),
    };
    if sup.as_live().is_none() {
        return Err(ApiError::conflict(String::from_str("supervisor is faulted; cannot spawn subagents")));
    }
    let kids = sup.subagent_ids();
    if mode == DelegationMode::FullHandoff && kids.len() > 0 {
        return Err(ApiError::conflict(String::from_str(
            "a full-handoff subagent requires the supervisor to have no other subagents; remove them first",
        )));
    }
    let mut i: usize = 0;
    while i < kids.len()
        invariant
            registry.wf(),
            registry.map().contains_key(supervisor_id@),
            may_act_for(*identity, supervisor_id@),
            *sup == registry.map()[supervisor_id@],
            sup is Live,
            kids.deep_view() == sup.kids(),
            !(mode == DelegationMode::FullHandoff && sup.kids().len() > 0),
            i <= kids.len(),
            forall|k: int| 0 <= k < i ==> !(registry.map().contains_key(#[trigger] kids.deep_view()[k])
                && registry.map()[kids.deep_view()[k]].ident().config.delegation_mode == DelegationMode::FullHandoff),
        decreases kids.len() - i,
    {
        proof { assert(kids.deep_view()[i as int] == kids@[i as int]@); }
        match registry.get(&kids[i]) {
            Some(child) => {
                if child.identity().config.delegation_mode == DelegationMode::FullHandoff {
                    return Err(ApiError::conflict(String::from_str(
                        "supervisor already has a full-handoff subagent; remove it before spawning others",
                    )));
                }
            },
            None => {},
        }
        i = i + 1;
    }
    let c = &sup.identity().config;
    if c.max_depth == 0 {
        return Err(ApiError::forbidden(String::from_str("supervisor has no remaining delegation depth")));
    }
    let ws = match workspace {
        Err(e) => return Err(ApiError::bad_request(String::from_str("invalid workspace_root: ").concat(e.as_str()))),
        Ok(w) => w,
    };
    if !is_within(ws, &c.workspace_root) {
        return Err(ApiError::forbidden(String::from_str("workspace_root must be within supervisor's workspace")));
    }
    if mode == DelegationMode::FullHandoff && !same_path(ws, &c.workspace_root) {
        return Err(ApiError::bad_request(String::from_str(
            "full_handoff requires the subagent workspace to be the supervisor's entire workspace root",
        )));
    }
    let granted = match resolve_granted_class(ceiling, c.permissions_class, requested) {
        Ok(g) => g,
        Err(e) => return Err(e),
    };
    if mode == DelegationMode::FullHandoff && granted != PermissionClass::Normal {
        return Err(ApiError::bad_request(String::from_str(
            "full-handoff requires permission_class normal (a Guest is readonly and cannot hold the workspace write-lock)",
        )));
    }
    Ok((ws.clone(), granted))
}

// ---- relabel, activity, duty ----

/// The request-only checks of a relabel: a role, when given, must not be
/// blank; something must change.
pub fn check_metadata_request(role: &Option<String>, description: &Option<String>) -> (r: Result<(), ApiError>)
    ensures
        (role matches Some(x) && all_ws(x@)) ==> (r matches Err(e) && e.status == 400 && e.message@ == "'role' must not be empty"@),
        !(role matches Some(x) && all_ws(x@)) && role is None && description is None
            ==> (r matches Err(e) && e.status == 400 && e.message@ == "no fields to update"@),
        !(role matches Some(x) && all_ws(x@)) && !(role is None && description is None) ==> r is Ok,
{
    match role {
        Some(x) => {
            let cs = chars_of(x.as_str());
            let mut blank = true;
            let mut i: usize = 0;
            while i < cs.len()
                invariant
                    cs@ == x@,
                    i <= cs.len(),
                    blank == forall|j: int| 0 <= j < i ==> crate::team::status::ws_char(#[trigger] x@[j]),
                decreases cs.len() - i,
            {
                if !is_ws(cs[i]) {
                    blank = false;
                }
                i = i + 1;
            }
            if blank {
                return Err(ApiError::bad_request(String::from_str("'role' must not be empty")));
            }
        },
        None => {},
    }
    if role.is_none() && description.is_none() {
        return Err(ApiError::bad_request(String::from_str("no fields to update")));
    }
    Ok(())
}

/// Relabel an agent in memory (after the caller persisted the same
/// change): only the given fields change. `404` for an unknown agent.
pub fn apply_metadata(registry: &mut AgentRegistry, id: &String, role: &Option<String>, description: &Option<String>) -> (r: Result<(), ApiError>)
    requires old(registry).wf(),
    ensures
        final(registry).wf(),
        final(registry).tokens() == old(registry).tokens(),
        !old(registry).map().contains_key(id@) ==> (r matches Err(e) && e.status == 404 && e.message@ == "agent not found"@)
            && final(registry).map() == old(registry).map(),
        old(registry).map().contains_key(id@) ==> r is Ok && ({
            let c = old(registry).map()[id@].ident().config;
            let nc = AgentConfig {
                role: match role { Some(x) => *x, None => c.role },
                description: match description { Some(x) => *x, None => c.description },
                ..c
            };
            final(registry).map() == old(registry).map().insert(id@, crate::registry::with_config(old(registry).map()[id@], nc))
        }),
{
    let mut c = match registry.get(id) {
        None => return Err(ApiError::not_found(String::from_str("agent not found"))),
        Some(e) => e.identity().config.copy(),
    };
    match role {
        Some(x) => { c.role = x.clone(); },
        None => {},
    }
    match description {
        Some(x) => { c.description = x.clone(); },
        None => {},
    }
    registry.set_config(id, c);
    Ok(())
}

/// Record an agent's self-reported activity: the caller must be the
/// agent itself or the operator; unknown is `404`; faulted is `409`;
/// the text is capped at [`MAX_ACTIVITY_CHARS`] characters.
pub fn update_activity(registry: &mut AgentRegistry, identity: &Identity, id: &String, activity: String) -> (r: Result<(), ApiError>)
    requires old(registry).wf(),
    ensures
        final(registry).wf(),
        final(registry).tokens() == old(registry).tokens(),
        r is Ok ==> old(registry).map().contains_key(id@) && old(registry).map()[id@] is Live
            && may_act_for(*identity, id@)
            && final(registry).map() == old(registry).map().insert(id@, crate::registry::with_activity(
                old(registry).map()[id@], final(registry).map()[id@]->Live_0.agent.activity))
            && final(registry).map()[id@]->Live_0.agent.activity@ == truncated(activity@, MAX_ACTIVITY_CHARS as nat),
        r is Err ==> final(registry).map() == old(registry).map(),
        may_act_for(*identity, id@) && old(registry).map().contains_key(id@) ==>
            ((r is Ok) <==> old(registry).map()[id@] is Live),
        !may_act_for(*identity, id@) ==> (r matches Err(e) && e.status == 403
            && e.message@ == "only the agent itself or operator is authorized for this action"@),
        may_act_for(*identity, id@) && !old(registry).map().contains_key(id@) ==>
            (r matches Err(e) && e.status == 404 && e.message@ == "agent not found"@),
        may_act_for(*identity, id@) && old(registry).map().contains_key(id@)
            && old(registry).map()[id@] is Faulted ==> (r matches Err(e) && e.status == 409
                && e.message@ == "agent is faulted; cannot report activity"@),
{
    match registry.require_self_or_operator(identity, id) {
        Ok(()) => {},
        Err(e) => return Err(e),
    }
    let live = match registry.get(id) {
        None => return Err(ApiError::not_found(String::from_str("agent not found"))),
        Some(e) => e.as_live().is_some(),
    };
    if !live {
        return Err(ApiError::conflict(String::from_str("agent is faulted; cannot report activity")));
    }
    let mut a = activity;
    truncate_chars(&mut a, MAX_ACTIVITY_CHARS);
    registry.set_activity(id, a);
    Ok(())
}

// ---- removal, interrupt, root, duty ----

/// The caller may manage `target`: the operator, or a creator of some
/// entry on the target's supervisor chain.
pub open spec fn superior_ok(m: Map<Seq<char>, RegistryEntry>, identity: Identity, target: Seq<char>) -> bool {
    match identity {
        Identity::Operator => true,
        Identity::Agent { id } => match chain_of(m, target) {
            ChainWalk::Done(c) => supervised_on_chain(m, c, id@),
            _ => false,
        },
    }
}

/// `e` is the refusal the superior check answers `identity` with for
/// `target`: `403` when the chain holds no entry the caller created,
/// or the chain walk's own `403` when the chain loops or breaks.
pub open spec fn superior_refusal(m: Map<Seq<char>, RegistryEntry>, identity: Identity, target: Seq<char>, e: ApiError) -> bool {
    match identity {
        Identity::Operator => false,
        Identity::Agent { id } => match chain_of(m, target) {
            ChainWalk::Done(c) => !supervised_on_chain(m, c, id@) && e.status == 403
                && e.message@ == not_authorized_msg(),
            w => chain_error_ok(w, e),
        },
    }
}

/// The live tagma root is `id`.
pub open spec fn is_live_root(l: Seq<(String, RegistryEntry)>, id: Seq<char>) -> bool {
    first_root(l) >= 0 && l[first_root(l)].0@ == id && l[first_root(l)].1 is Live
}

/// A live agent that may be removed: idle or parked (no turn in
/// flight).
pub open spec fn quiescent(s: AgentState) -> bool {
    s == AgentState::Idle || s == AgentState::Parked
}

/// The checks of a removal, then the unregistration: the live root is
/// not removable (`409`); the caller must be a superior; the agent must
/// exist (`404`), be quiescent when live (idle or parked; `409` for
/// busy, waiting, retrying), and have no subagents (`409`). On success
/// the unregistered entry comes back.
pub fn remove_check(registry: &mut AgentRegistry, identity: &Identity, id: &String) -> (r: Result<RegistryEntry, ApiError>)
    requires old(registry).wf(),
    ensures
        final(registry).wf(),
        r is Err ==> final(registry).map() == old(registry).map() && final(registry).tokens() == old(registry).tokens(),
        is_live_root(old(registry).listing(), id@) ==> (r matches Err(e) && e.status == 409
            && e.message@ == "root agent is tagma-managed and cannot be removed"@),
        !is_live_root(old(registry).listing(), id@) && !superior_ok(old(registry).map(), *identity, id@) ==> (r matches Err(e)
            && superior_refusal(old(registry).map(), *identity, id@, e)),
        !is_live_root(old(registry).listing(), id@) && superior_ok(old(registry).map(), *identity, id@) ==> {
            let m = old(registry).map();
            if !m.contains_key(id@) {
                r matches Err(e) && e.status == 404 && e.message@ == "agent not found"@
            } else if m[id@] matches RegistryEntry::Live(x) && !quiescent(x.agent.state) {
                r matches Err(e) && e.status == 409 && e.message@ == "agent is busy, interrupt it first"@
            } else if m[id@].kids().len() > 0 {
                r matches Err(e) && e.status == 409
                    && e.message@ == "agent has active subagents, remove or interrupt them first"@
            } else {
                r matches Ok(gone) && gone == m[id@] && unregistered_as(final(registry).map(), m, id@, gone)
                    && final(registry).tokens() == tokens_after_unregister(old(registry).tokens(), gone)
            }
        },
{
    let live_root = match registry.root_agent() {
        Some((rid, e)) => *rid == *id && e.as_live().is_some(),
        None => false,
    };
    if live_root {
        return Err(ApiError::conflict(String::from_str("root agent is tagma-managed and cannot be removed")));
    }
    match registry.require_superior(identity, id) {
        Ok(()) => {},
        Err(e) => return Err(e),
    }
    match registry.get(id) {
        None => return Err(ApiError::not_found(String::from_str("agent not found"))),
        Some(e) => {
            match e.as_live() {
                Some(x) => {
                    if x.agent.state != AgentState::Idle && x.agent.state != AgentState::Parked {
                        return Err(ApiError::conflict(String::from_str("agent is busy, interrupt it first")));
                    }
                },
                None => {},
            }
            if e.subagent_ids().len() > 0 {
                return Err(ApiError::conflict(String::from_str(
                    "agent has active subagents, remove or interrupt them first",
                )));
            }
        },
    }
    match registry.unregister(id) {
        Some(e) => Ok(e),
        None => Err(ApiError::internal(String::from_str("agent vanished during removal"))),
    }
}

/// A removed full-handoff child returns its workspace lock to its
/// supervisor: the supervisor and the workspace, when that applies.
pub fn handoff_return(entry: &RegistryEntry) -> (r: Option<(String, String)>)
    ensures
        match r {
            Some((sup, ws)) => entry.ident().config.delegation_mode == DelegationMode::FullHandoff
                && entry.ident().config.created_by == Some(sup) && ws == entry.ident().config.workspace_root,
            None => !(entry.ident().config.delegation_mode == DelegationMode::FullHandoff
                && entry.ident().config.created_by is Some),
        },
{
    let c = &entry.identity().config;
    if c.delegation_mode == DelegationMode::FullHandoff {
        match &c.created_by {
            Some(sup) => Some((sup.clone(), c.workspace_root.clone())),
            None => None,
        }
    } else {
        None
    }
}

/// The checks of an interrupt: the caller must be a superior; the agent
/// must exist (`404`) and be live (`409`).
pub fn interrupt_check(registry: &AgentRegistry, identity: &Identity, id: &String) -> (r: Result<(), ApiError>)
    requires registry.wf(),
    ensures
        !superior_ok(registry.map(), *identity, id@) ==> (r matches Err(e)
            && superior_refusal(registry.map(), *identity, id@, e)),
        superior_ok(registry.map(), *identity, id@) ==> {
            if !registry.map().contains_key(id@) {
                r matches Err(e) && e.status == 404 && e.message@ == "agent not found"@
            } else if registry.map()[id@] is Faulted {
                r matches Err(e) && e.status == 409 && e.message@ == "agent is faulted; nothing to interrupt"@
            } else {
                r is Ok
            }
        },
{
    match registry.require_superior(identity, id) {
        Ok(()) => {},
        Err(e) => return Err(e),
    }
    match registry.get(id) {
        None => Err(ApiError::not_found(String::from_str("agent not found"))),
        Some(e) => if e.as_live().is_none() {
            Err(ApiError::conflict(String::from_str("agent is faulted; nothing to interrupt")))
        } else {
            Ok(())
        },
    }
}

/// The tagma root, always present after startup; its absence is the
/// violated startup invariant (`500`), never a `404`.
pub fn get_root_agent(registry: &AgentRegistry, duty: DutyStatus) -> (r: Result<AgentSummary, ApiError>)
    requires registry.wf(),
    ensures
        ({
            let l = registry.listing();
            let f = first_root(l);
            &&& f < 0 ==> (r matches Err(e) && e.status == 500
                && e.message@ == "root agent missing — startup invariant violated"@)
            &&& f >= 0 ==> (r matches Ok(s) && summary_of(s, l[f].0@, l[f].1, duty))
        }),
{
    match registry.root_agent() {
        Some((id, e)) => Ok(summary(id, e, duty)),
        None => Err(ApiError::internal(String::from_str("root agent missing — startup invariant violated"))),
    }
}

/// The checks of a duty change: operator only (`403`), a registered
/// agent (`404`). On success, the agent's summary carrying the new duty.
pub fn update_duty(registry: &AgentRegistry, identity: &Identity, id: &String, req: UpdateDutyRequest) -> (r: Result<AgentSummary, ApiError>)
    requires registry.wf(),
    ensures
        !(identity is Operator) ==> (r matches Err(e) && e.status == 403 && e.message@ == "operator token required"@),
        identity is Operator && !registry.map().contains_key(id@) ==> (r matches Err(e) && e.status == 404
            && e.message@ == "agent not found"@),
        identity is Operator && registry.map().contains_key(id@) ==> (r matches Ok(s)
            && summary_of(s, id@, registry.map()[id@], req.status)),
{
    match require_operator(identity) {
        Ok(()) => {},
        Err(e) => return Err(e),
    }
    match registry.get(id) {
        None => Err(ApiError::not_found(String::from_str("agent not found"))),
        Some(e) => Ok(summary(id, e, req.status)),
    }
}

/// The root an agent's environment names: the registered root's id.
pub fn resolve_root_agent(root: Option<&String>) -> (r: String)
    requires root is Some,
    ensures r@ == root.unwrap()@,
{
    match root {
        Some(id) => id.clone(),
        None => String::new(),
    }
}

} // verus!
