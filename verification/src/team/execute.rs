//! The registry side of executing converge rows: the re-reads that stop
//! a batch when reality moved since planning, the in-memory alignment of
//! a live body, the unregistration of a deactivated one, and the spawn
//! order a declaration row becomes.
use vstd::prelude::*;
use vstd::string::StringExecFns;
use crate::config::{AgentConfig, PermissionClass, parse_class_spec, parse_requested_class};
use crate::fmt::{debug_quote, debug_quoted};
use crate::profiles::{ProfileConfig, has_set, set_names};
use crate::registry::{AgentRegistry, RegistryEntry, tokens_after_unregister, unregistered_as, with_config};
use crate::team::converge::{
    AlignItems, PlannedAction, align_empty, deactivation_check, deactivation_spec,
};
use crate::team::{RoleDeclaration, opt_view};

verus! {

pub open spec fn msg_vanished_now(id: Seq<char>) -> Seq<char> {
    "agent "@ + id + " vanished in the plan→execute window; batch stopped"@
}

/// The re-read before aligning a live body: the row has a target, the
/// target is still registered (even for an empty alignment, since an
/// adopt row rebinds the mapping to it), and, when there is something to
/// align, still holds the row's role and has an on-disk directory. `None`
/// means nothing to write; otherwise the directory to rewrite.
pub open spec fn align_check_spec(a: PlannedAction, m: Map<Seq<char>, RegistryEntry>) -> Result<Option<Seq<char>>, Seq<char>> {
    match a.target {
        None => Err("alignment row without a live target"@),
        Some(id) => if !m.contains_key(id@) {
            Err(msg_vanished_now(id@))
        } else if align_empty(a.align@) {
            Ok(None)
        } else if m[id@].ident().config.role@ != a.role@ {
            Err("agent "@ + id@ + " no longer holds role "@ + debug_quote(a.role@) + "; batch stopped"@)
        } else {
            match m[id@].ident().agent_dir {
                Some(d) => Ok(Some(d@)),
                None => Err("agent has no on-disk directory"@),
            }
        },
    }
}

/// Re-read an alignment target (see [`align_check_spec`]).
pub fn align_live_check(registry: &AgentRegistry, a: &PlannedAction) -> (r: Result<Option<String>, String>)
    requires registry.wf(),
    ensures
        match align_check_spec(*a, registry.map()) {
            Ok(d) => r matches Ok(x) && opt_view(x) == d,
            Err(m) => r matches Err(x) && x@ == m,
        },
{
    let id = match &a.target {
        Some(t) => t,
        None => return Err(String::from_str("alignment row without a live target")),
    };
    let entry = match registry.get(id) {
        Some(e) => e,
        None => {
            return Err(String::from_str("agent ").concat(id.as_str()).concat(
                " vanished in the plan→execute window; batch stopped",
            ));
        },
    };
    if a.align.is_empty() {
        return Ok(None);
    }
    if entry.identity().config.role != a.role {
        let q = debug_quoted(a.role.as_str());
        return Err(String::from_str("agent ").concat(id.as_str()).concat(" no longer holds role ").concat(q.as_str()).concat(
            "; batch stopped",
        ));
    }
    match &entry.identity().agent_dir {
        Some(d) => Ok(Some(d.clone())),
        None => Err(String::from_str("agent has no on-disk directory")),
    }
}

/// `c` with the description and the profile set of `al` applied.
pub open spec fn with_desc_and_set(c: AgentConfig, al: AlignItems) -> AgentConfig {
    AgentConfig {
        description: match al.description { Some(d) => d, None => c.description },
        profile_set: match al.profile_set { Some(s) => Some(s), None => c.profile_set },
        ..c
    }
}

/// `c` with all of `al` applied.
pub open spec fn with_alignment(c: AgentConfig, al: AlignItems) -> AgentConfig {
    AgentConfig {
        permissions_class: match al.permissions_class { Some(k) => k, None => c.permissions_class },
        ..with_desc_and_set(c, al)
    }
}

/// The notes of an in-memory alignment, one per field changed.
pub open spec fn align_live_notes(al: AlignItems) -> Seq<Seq<char>> {
    (if al.description is Some { seq!["aligned description"@] } else { Seq::empty() })
        + (if al.profile_set is Some { seq!["aligned profile_set"@] } else { Seq::empty() })
        + (if al.permissions_class is Some { seq!["downgraded permission_class"@] } else { Seq::empty() })
}

/// The in-memory side of aligning a live body, after its metadata was
/// rewritten on disk: the description, then the profile set, then the
/// class. A live body's new set must still be in the bundle; when it
/// vanished the batch stops, with the description and the set already
/// flipped in memory (as on disk).
pub fn align_live_apply(registry: &mut AgentRegistry, id: &String, align: &AlignItems, bundle: &ProfileConfig) -> (r: Result<Vec<String>, String>)
    requires
        old(registry).wf(),
        old(registry).map().contains_key(id@),
    ensures
        final(registry).wf(),
        final(registry).tokens() == old(registry).tokens(),
        ({
            let e = old(registry).map()[id@];
            let c = e.ident().config;
            let set_gone = match align.profile_set {
                Some(s) => e is Live && !set_names(bundle@.sets).contains(s@),
                None => false,
            };
            if set_gone {
                &&& final(registry).map() == old(registry).map().insert(id@, with_config(e, with_desc_and_set(c, *align)))
                &&& r matches Err(m) && m@ == "profile set "@ + debug_quote(align.profile_set->Some_0@)
                    + " vanished in the plan→execute window; batch stopped"@
            } else {
                &&& final(registry).map() == old(registry).map().insert(id@, with_config(e, with_alignment(c, *align)))
                &&& r matches Ok(notes) && notes.deep_view() == align_live_notes(*align)
            }
        }),
{
    let e = match registry.get(id) {
        Some(e) => e,
        None => return Err(String::new()),
    };
    let live = e.as_live().is_some();
    let mut c = e.identity().config.copy();
    let mut notes: Vec<String> = Vec::new();
    match &align.description {
        Some(d) => {
            c.description = d.clone();
            notes.push(String::from_str("aligned description"));
        },
        None => {},
    }
    match &align.profile_set {
        Some(s) => {
            c.profile_set = Some(s.clone());
            notes.push(String::from_str("aligned profile_set"));
            if live && !has_set(bundle, s) {
                let q = debug_quoted(s.as_str());
                registry.set_config(id, c);
                return Err(String::from_str("profile set ").concat(q.as_str()).concat(
                    " vanished in the plan→execute window; batch stopped",
                ));
            }
        },
        None => {},
    }
    match align.permissions_class {
        Some(k) => {
            c.permissions_class = k;
            notes.push(String::from_str("downgraded permission_class"));
        },
        None => {},
    }
    registry.set_config(id, c);
    proof {
        assert(notes.deep_view() =~= align_live_notes(*align));
    }
    Ok(notes)
}

/// Take a deactivation target out of the registry: the row has a
/// target, the re-read passes (see [`deactivation_spec`]), and the
/// target is unregistered. On success, the unregistered entry and the
/// notes.
pub fn deactivate_in_registry(registry: &mut AgentRegistry, a: &PlannedAction, force: bool) -> (r: Result<(RegistryEntry, Vec<String>), String>)
    requires old(registry).wf(),
    ensures
        final(registry).wf(),
        r is Err ==> final(registry).map() == old(registry).map() && final(registry).tokens() == old(registry).tokens(),
        match a.target {
            None => r matches Err(m) && m@ == "deactivation row without a live target"@,
            Some(id) => {
                let m = old(registry).map();
                let e = if m.contains_key(id@) { Some(m[id@]) } else { None };
                match deactivation_spec(e, id@, force) {
                    Err(msg) => r matches Err(x) && x@ == msg,
                    Ok(notes) => r matches Ok(v) && v.0 == m[id@] && v.1.deep_view() == notes
                        && unregistered_as(final(registry).map(), m, id@, v.0)
                        && final(registry).tokens() == tokens_after_unregister(old(registry).tokens(), v.0),
                }
            },
        },
{
    let id = match &a.target {
        Some(t) => t,
        None => return Err(String::from_str("deactivation row without a live target")),
    };
    let notes = match deactivation_check(registry.get(id), id, force) {
        Ok(n) => n,
        Err(m) => return Err(m),
    };
    match registry.unregister(id) {
        Some(gone) => Ok((gone, notes)),
        None => Err(String::from_str("agent ").concat(id.as_str()).concat(" vanished during unregister")),
    }
}

/// The refusal when a deactivated body was unregistered but could not
/// be parked.
pub fn park_failed(id: &String, err: &String) -> (m: String)
    ensures m@ == "agent "@ + id@ + " is unregistered but the park failed: "@ + err@,
{
    String::from_str("agent ").concat(id.as_str()).concat(" is unregistered but the park failed: ").concat(err.as_str())
}

/// What spawning one declared role asks for: the supervisor (the tagma
/// root), the derived workspace, and the declared metadata.
#[derive(Clone, Debug)]
pub struct SpawnOrder {
    pub supervisor_id: String,
    pub workspace_root: String,
    pub role: String,
    pub description: String,
    pub profile_set: Option<String>,
    pub prompt: Option<String>,
    pub skills: Vec<String>,
    pub requested_class: Option<PermissionClass>,
}

/// The workspace of a declared role: `team/<role>` under the root's
/// workspace, joined as paths join (no separator after an empty or
/// `/`-terminated root; an absolute role replaces the whole path).
pub open spec fn team_workspace(root_ws: Seq<char>, role: Seq<char>) -> Seq<char> {
    if role.len() > 0 && role[0] == '/' {
        role
    } else {
        let base = if root_ws.len() == 0 || root_ws.last() == '/' { root_ws } else { root_ws + "/"@ };
        base + "team/"@ + role
    }
}

/// The spawn order of a spawn row: the root must be live and the row
/// must carry its declaration; the declared class (normal when absent)
/// must be a known spelling.
pub open spec fn spawn_order_spec(
    a: PlannedAction,
    root: Option<(Seq<char>, Seq<char>)>,
) -> Result<(Seq<char>, Seq<char>, Option<PermissionClass>), Seq<char>> {
    match root {
        None => Err("the tagma root is not live"@),
        Some((rid, rws)) => match a.declared {
            None => Err("spawn row without a declaration entry"@),
            Some(d) => {
                let want = match d.permission_class { Some(w) => w@, None => "normal"@ };
                match parse_class_spec(want) {
                    Some(k) => Ok((rid, team_workspace(rws, a.role@), Some(k))),
                    None => Err("unknown permission class (expected normal or guest)"@),
                }
            },
        },
    }
}

/// Build the spawn order of a spawn row (see [`spawn_order_spec`]); the
/// declared description, profile set, prompt and skills ride along.
pub fn spawn_order(a: &PlannedAction, root: Option<(&String, &String)>) -> (r: Result<SpawnOrder, String>)
    ensures
        match spawn_order_spec(*a, match root { Some((i, w)) => Some((i@, w@)), None => None }) {
            Ok((sup, ws, class)) => r matches Ok(o) && o.supervisor_id@ == sup && o.workspace_root@ == ws
                && o.requested_class == class && o.role@ == a.role@
                && o.description@ == a.declared->Some_0.description@
                && opt_view(o.profile_set) == opt_view(a.declared->Some_0.profile_set)
                && opt_view(o.prompt) == opt_view(a.declared->Some_0.prompt)
                && o.skills.deep_view() == a.declared->Some_0.skills.deep_view(),
            Err(m) => r matches Err(x) && x@ == m,
        },
{
    let (rid, rws) = match root {
        Some(x) => x,
        None => return Err(String::from_str("the tagma root is not live")),
    };
    let d: &RoleDeclaration = match &a.declared {
        Some(d) => d,
        None => return Err(String::from_str("spawn row without a declaration entry")),
    };
    let want: Option<String> = match &d.permission_class {
        Some(w) => Some(w.clone()),
        None => Some(String::from_str("normal")),
    };
    let class = match parse_requested_class(&want) {
        Ok(k) => k,
        Err(e) => return Err(e.message),
    };
    let rl = a.role.as_str().unicode_len();
    let ws = if rl > 0 && a.role.as_str().get_char(0) == '/' {
        a.role.clone()
    } else {
        let mut ws = rws.clone();
        let n = rws.as_str().unicode_len();
        if n > 0 && rws.as_str().get_char(n - 1) != '/' {
            ws = ws.concat("/");
        }
        ws.concat("team/").concat(a.role.as_str())
    };
    Ok(SpawnOrder {
        supervisor_id: rid.clone(),
        workspace_root: ws,
        role: a.role.clone(),
        description: d.description.clone(),
        profile_set: crate::team::copy_opt_string(&d.profile_set),
        prompt: crate::team::copy_opt_string(&d.prompt),
        skills: crate::team::copy_strings(&d.skills),
        requested_class: class,
    })
}

} // verus!
