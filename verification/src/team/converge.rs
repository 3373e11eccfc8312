//! The declarative write face of the team domain: the converge plan
//! (the status comparison enriched into executable verbs), the mapping
//! projection, the whole-batch preflight, and the per-row decisions of
//! execution.
use vstd::prelude::*;
use vstd::string::StringExecFns;
use crate::config::{PermissionClass, class_rank, parse_class, parse_class_spec};
use crate::fmt::{debug_quote, debug_quoted, decimal, display_u128, display_usize};
use crate::team::{
    RoleDeclView, RoleDeclaration, RoleDisposition, TeamAction, TeamDeclaration, TeamLockEntry, TeamRejection,
    TeamActionResult, TeamRejectionKind, TeamRowOutcome, copy_opt_string,
    copy_strings, opt_view,
};
use crate::keyed::{keys_unique, pairs_map, find_key};
use crate::team::status::{
    LiveEntry, LockPair, compare_team, decl_view, disposition_for, drifts, live_ids, lock_for,
    find_lock, root_name, row_is, row_roles, undeclared,
};
use crate::order::sorted_strict;
use crate::auth::{ApiError, Identity};
use crate::config::AgentState;
use crate::registry::{AgentRegistry, RegistryEntry, first_root, lemma_first_root};

verus! {

/// Registry snapshot of one live body, reduced to what planning and
/// preflight read: identity fields plus the safety bits.
#[derive(Clone, Debug)]
pub struct LiveBody {
    pub id: String,
    pub role: String,
    pub workspace_root: String,
    pub description: String,
    pub profile_set: Option<String>,
    pub permissions_class: PermissionClass,
    /// Mid-round (any state but idle or parked).
    pub busy: bool,
    /// Live subagents.
    pub children: usize,
    /// The entry is faulted (no running agent).
    pub faulted: bool,
}

/// Metadata alignment items a plan row applies, resolved against the
/// declaration at plan time.
#[derive(Clone, Debug)]
pub struct AlignItems {
    pub description: Option<String>,
    pub profile_set: Option<String>,
    /// Downgrades only: converge never raises a class.
    pub permissions_class: Option<PermissionClass>,
}

/// The value of an [`AlignItems`].
pub ghost struct AlignView {
    pub description: Option<Seq<char>>,
    pub profile_set: Option<Seq<char>>,
    pub class: Option<PermissionClass>,
}

pub open spec fn no_align() -> AlignView {
    AlignView { description: None, profile_set: None, class: None }
}

pub open spec fn align_empty(a: AlignView) -> bool {
    a.description is None && a.profile_set is None && a.class is None
}

impl View for AlignItems {
    type V = AlignView;

    open spec fn view(&self) -> AlignView {
        AlignView {
            description: opt_view(self.description),
            profile_set: opt_view(self.profile_set),
            class: self.permissions_class,
        }
    }
}

impl AlignItems {
    /// Nothing to align.
    pub fn none() -> (r: AlignItems)
        ensures r@ == no_align(),
    {
        AlignItems { description: None, profile_set: None, permissions_class: None }
    }

    pub fn is_empty(&self) -> (b: bool)
        ensures b == align_empty(self@),
    {
        self.description.is_none() && self.profile_set.is_none() && self.permissions_class.is_none()
    }

    pub fn copy(&self) -> (r: AlignItems)
        ensures r@ == self@,
    {
        AlignItems {
            description: copy_opt_string(&self.description),
            profile_set: copy_opt_string(&self.profile_set),
            permissions_class: self.permissions_class,
        }
    }
}

/// One planned action: the plan's internal form.
#[derive(Clone, Debug)]
pub struct PlannedAction {
    pub role: String,
    pub action: TeamAction,
    /// Live body (adopt, align, deactivate) or lock-recorded id
    /// (restore); `None` for spawns and rows that touch nothing.
    pub target: Option<String>,
    pub notes: Vec<String>,
    /// The presence-level verdict that produced this row.
    pub disposition: RoleDisposition,
    pub declared: Option<RoleDeclaration>,
    pub align: AlignItems,
    /// The row's lock record was discarded (drift, archived, or nowhere
    /// on disk) and must not survive into the response mapping.
    pub discard_record: bool,
}

/// The wire form of a plan row.
#[derive(Clone, Debug)]
pub struct TeamPlanRow {
    pub role: String,
    pub action: TeamAction,
    pub agent_id: Option<String>,
    pub notes: Vec<String>,
    pub disposition: RoleDisposition,
}

impl PlannedAction {
    /// The wire row: role, verb, target, notes and verdict.
    pub fn to_wire(&self) -> (w: TeamPlanRow)
        ensures
            w.role@ == self.role@,
            w.action == self.action,
            opt_view(w.agent_id) == opt_view(self.target),
            w.notes.deep_view() == self.notes.deep_view(),
            w.disposition == self.disposition,
    {
        TeamPlanRow {
            role: self.role.clone(),
            action: self.action,
            agent_id: copy_opt_string(&self.target),
            notes: copy_strings(&self.notes),
            disposition: self.disposition,
        }
    }
}

// ---- alignment ----

pub open spec fn msg_cannot_raise(want: Seq<char>) -> Seq<char> {
    "cannot auto-align permission_class ("@ + want
        + " exceeds the live body's class; converge never raises permissions)"@
}

pub open spec fn msg_unknown_class(want: Seq<char>) -> Seq<char> {
    "declaration permission_class "@ + debug_quote(want) + " is not a known spelling; left unchanged"@
}

/// What converge would align on `body` for declaration `d`: a
/// non-empty differing description, a differing declared profile set,
/// and a class only when the declared one is lower.
pub open spec fn align_spec(d: RoleDeclView, body: LiveBody) -> AlignView {
    align_on(d, body.description@, opt_view(body.profile_set), body.permissions_class)
}

/// Alignment against a description, a profile-set binding and a class.
pub open spec fn align_on(d: RoleDeclView, desc: Seq<char>, pset: Option<Seq<char>>, class: PermissionClass) -> AlignView {
    AlignView {
        description: if d.description.len() > 0 && d.description != desc {
            Some(d.description)
        } else {
            None
        },
        profile_set: match d.profile_set {
            Some(w) => if pset != Some(w) { Some(w) } else { None },
            None => None,
        },
        class: match d.permission_class {
            Some(w) => match parse_class_spec(w) {
                Some(c) => if class_rank(c) < class_rank(class) { Some(c) } else { None },
                None => None,
            },
            None => None,
        },
    }
}

/// The notes alignment leaves: a declared class above the body's, or an
/// unknown class spelling.
pub open spec fn align_notes(d: RoleDeclView, body: LiveBody) -> Seq<Seq<char>> {
    match d.permission_class {
        Some(w) => match parse_class_spec(w) {
            Some(c) => if class_rank(c) > class_rank(body.permissions_class) {
                seq![msg_cannot_raise(w)]
            } else {
                Seq::empty()
            },
            None => seq![msg_unknown_class(w)],
        },
        None => Seq::empty(),
    }
}

/// Diff one declared role against its live body. Field-scoped and
/// conservative: empty declaration fields mean "declaration silent".
pub fn alignment_of(declared: &RoleDeclaration, body: &LiveBody) -> (r: (AlignItems, Vec<String>))
    ensures
        r.0@ == align_spec(declared@, *body),
        r.1.deep_view() == align_notes(declared@, *body),
{
    let mut items = AlignItems::none();
    let mut notes: Vec<String> = Vec::new();
    if declared.description.as_str().unicode_len() > 0 && declared.description != body.description {
        items.description = Some(declared.description.clone());
    }
    match &declared.profile_set {
        Some(want) => {
            let same = match &body.profile_set {
                Some(have) => *have == *want,
                None => false,
            };
            if !same {
                items.profile_set = Some(want.clone());
            }
        },
        None => {},
    }
    match &declared.permission_class {
        Some(want) => match parse_class(want.as_str()) {
            Some(c) => {
                if body.permissions_class.exceeds(&c) {
                    items.permissions_class = Some(c);
                } else if c.exceeds(&body.permissions_class) {
                    let m = String::from_str("cannot auto-align permission_class (").concat(want.as_str()).concat(
                        " exceeds the live body's class; converge never raises permissions)",
                    );
                    notes.push(m);
                    proof { assert(notes.deep_view() =~= seq![msg_cannot_raise(want@)]); }
                }
            },
            None => {
                let q = debug_quoted(want.as_str());
                let m = String::from_str("declaration permission_class ").concat(q.as_str()).concat(
                    " is not a known spelling; left unchanged",
                );
                notes.push(m);
                proof { assert(notes.deep_view() =~= seq![msg_unknown_class(want@)]); }
            },
        },
        None => {},
    }
    proof {
        assert(notes.deep_view() =~= align_notes(declared@, *body));
    }
    (items, notes)
}

// ---- planning ----

/// The comparison keys of live bodies.
pub open spec fn entries_of(live: Seq<LiveBody>) -> Seq<LiveEntry> {
    live.map_values(|b: LiveBody| LiveEntry { id: b.id, role: b.role })
}

/// The drift pool: every live body plus the root.
pub open spec fn drift_pool(root: Option<LiveBody>, live: Seq<LiveBody>) -> Seq<LiveEntry> {
    match root {
        Some(r) => entries_of(live).push(LiveEntry { id: r.id, role: r.role }),
        None => entries_of(live),
    }
}

/// The live bodies carrying `role`, in list order.
pub open spec fn bodies_of(live: Seq<LiveBody>, role: Seq<char>) -> Seq<LiveBody>
    decreases live.len(),
{
    if live.len() == 0 {
        Seq::empty()
    } else {
        let rest = bodies_of(live.drop_last(), role);
        if live.last().role@ == role { rest.push(live.last()) } else { rest }
    }
}

pub proof fn lemma_bodies_ids(live: Seq<LiveBody>, role: Seq<char>)
    ensures
        live_ids(entries_of(live), role) == bodies_of(live, role).map_values(|b: LiveBody| b.id@),
    decreases live.len(),
{
    if live.len() > 0 {
        lemma_bodies_ids(live.drop_last(), role);
        assert(entries_of(live).drop_last() =~= entries_of(live.drop_last()));
        let rest = bodies_of(live.drop_last(), role);
        if live.last().role@ == role {
            assert(rest.push(live.last()).map_values(|b: LiveBody| b.id@)
                =~= rest.map_values(|b: LiveBody| b.id@).push(live.last().id@));
        }
    } else {
        assert(bodies_of(live, role).map_values(|b: LiveBody| b.id@) =~= Seq::<Seq<char>>::empty());
    }
}

pub open spec fn msg_drifted(id: Seq<char>) -> Seq<char> {
    "lock record discarded: id "@ + id + " is live under another role"@
}

pub open spec fn msg_archived(id: Seq<char>) -> Seq<char> {
    "lock record discarded: id "@ + id
        + " sits in the archived area — retired bodies are never resurrected"@
}

pub open spec fn msg_nowhere(id: Seq<char>) -> Seq<char> {
    "lock record discarded: id "@ + id + " is not on disk in any area"@
}

pub open spec fn msg_superseded(id: Seq<char>) -> Seq<char> {
    "lock record role→"@ + id
        + " superseded by the live body; the recorded body stays parked in the inactive area"@
}

pub open spec fn note_exempt() -> Seq<char> {
    "unmanaged role: exempt from converge (visible, never touched)"@
}

pub open spec fn msg_duplicate_bodies(n: nat) -> Seq<char> {
    decimal(n) + " live bodies carry this role — the whole batch is rejected until resolved"@
}

pub open spec fn note_prompt() -> Seq<char> {
    "declaration prompt is not applied to a live body (no alignment basis; spawns only)"@
}

pub open spec fn note_skills() -> Seq<char> {
    "declared skills apply at spawn; the live body's context is unchanged"@
}

/// Record hygiene, run first on every row carrying a lock record:
/// whether the record is discarded, and the note saying why.
pub open spec fn hygiene(drift: bool, pair: Option<LockPair>, bodies: Seq<LiveBody>) -> (bool, Seq<Seq<char>>) {
    match pair {
        None => (false, Seq::empty()),
        Some(p) => if drift {
            (true, seq![msg_drifted(p.id@)])
        } else if p.in_archived {
            (true, seq![msg_archived(p.id@)])
        } else if !p.in_inactive && (forall|k: int| 0 <= k < bodies.len() ==> #[trigger] bodies[k].id@ != p.id@) {
            (true, seq![msg_nowhere(p.id@)])
        } else {
            (false, Seq::empty())
        },
    }
}

/// The verb a row's disposition resolves to: action, target, alignment
/// items and the notes it adds.
pub open spec fn verb_spec(
    disp: RoleDisposition,
    decl: Option<RoleDeclView>,
    pair: Option<LockPair>,
    bodies: Seq<LiveBody>,
    discard: bool,
) -> (TeamAction, Option<Seq<char>>, AlignView, Seq<Seq<char>>) {
    match disp {
        RoleDisposition::Active => {
            let body = bodies[0];
            let supersedes = match pair { Some(p) => p.id@ != body.id@, None => false };
            if supersedes {
                (TeamAction::Adopt, Some(body.id@), no_align(), match pair {
                    Some(p) => if p.in_inactive { seq![msg_superseded(p.id@)] } else { Seq::empty() },
                    None => Seq::empty(),
                })
            } else if discard {
                (TeamAction::Adopt, Some(body.id@), no_align(), Seq::empty())
            } else {
                match decl {
                    Some(d) => {
                        let al = align_spec(d, body);
                        if align_empty(al) {
                            (TeamAction::Retain, None, al, align_notes(d, body))
                        } else {
                            (TeamAction::AlignMetadata, Some(body.id@), al, align_notes(d, body))
                        }
                    },
                    None => (TeamAction::Retain, None, no_align(), Seq::empty()),
                }
            }
        },
        RoleDisposition::Adopt => (TeamAction::Adopt, Some(bodies[0].id@), no_align(), Seq::empty()),
        RoleDisposition::Restore => (TeamAction::Restore,
            match pair { Some(p) => Some(p.id@), None => None }, no_align(), Seq::empty()),
        RoleDisposition::Spawn => (TeamAction::Spawn, None, no_align(), Seq::empty()),
        RoleDisposition::Deactivate => (TeamAction::Deactivate, Some(bodies[0].id@), no_align(), Seq::empty()),
        RoleDisposition::Exempt => (TeamAction::Retain, None, no_align(), seq![note_exempt()]),
        RoleDisposition::Duplicate => (TeamAction::Retain, None, no_align(), seq![msg_duplicate_bodies(bodies.len())]),
        RoleDisposition::Retain => (TeamAction::Retain, None, no_align(), Seq::empty()),
    }
}

/// Adopt and align rows note what no live body can take: a declared
/// prompt and declared skills.
pub open spec fn decl_notes(action: TeamAction, decl: Option<RoleDeclView>) -> Seq<Seq<char>> {
    match decl {
        Some(d) => if action == TeamAction::Adopt || action == TeamAction::AlignMetadata {
            (if d.prompt is Some { seq![note_prompt()] } else { Seq::empty() })
                + (if d.skills.len() > 0 { seq![note_skills()] } else { Seq::empty() })
        } else {
            Seq::empty()
        },
        None => Seq::empty(),
    }
}

/// `a` is the plan row of `role`, given its declaration entry, its lock
/// record, the live bodies and the drift pool.
pub open spec fn plan_row_is(
    a: PlannedAction,
    role: Seq<char>,
    decl: Option<RoleDeclView>,
    pair: Option<LockPair>,
    live: Seq<LiveBody>,
    pool: Seq<LiveEntry>,
) -> bool {
    let bodies = bodies_of(live, role);
    let disp = disposition_for(decl, pair, bodies.len());
    let drift = pair matches Some(p) && drifts(p, role, pool);
    let h = hygiene(drift, pair, bodies);
    let v = verb_spec(disp, decl, pair, bodies, h.0);
    &&& a.role@ == role
    &&& decl_view(a.declared) == decl
    &&& a.disposition == disp
    &&& a.discard_record == h.0
    &&& a.action == v.0
    &&& opt_view(a.target) == v.1
    &&& a.align@ == v.2
    &&& a.notes.deep_view() == h.1 + v.3 + decl_notes(v.0, decl)
}

/// The roles of a plan.
pub open spec fn plan_roles(plan: Seq<PlannedAction>) -> Seq<Seq<char>> {
    plan.map_values(|a: PlannedAction| a.role@)
}

/// Builds the registry-free pieces of a plan row from the status row.
fn entries_from(live: &Vec<LiveBody>) -> (r: Vec<LiveEntry>)
    ensures r@ == entries_of(live@),
{
    let mut out: Vec<LiveEntry> = Vec::new();
    let mut i: usize = 0;
    while i < live.len()
        invariant
            i <= live.len(),
            out@ == entries_of(live@).take(i as int),
        decreases live.len() - i,
    {
        out.push(LiveEntry { id: live[i].id.clone(), role: live[i].role.clone() });
        proof { assert(out@ =~= entries_of(live@).take(i + 1)); }
        i = i + 1;
    }
    proof { assert(entries_of(live@).take(i as int) =~= entries_of(live@)); }
    out
}

/// The first live body carrying `role`, their number, and whether one
/// of them has id `pid`.
fn scan_bodies(live: &Vec<LiveBody>, role: &String, pid: Option<&String>) -> (r: (Option<usize>, usize, bool))
    ensures
        r.1 == bodies_of(live@, role@).len(),
        r.0 matches Some(i) ==> i < live@.len() && r.1 > 0 && live@[i as int] == bodies_of(live@, role@)[0],
        r.1 > 0 ==> r.0 is Some,
        match pid {
            Some(p) => r.2 == exists|k: int| 0 <= k < bodies_of(live@, role@).len()
                && #[trigger] bodies_of(live@, role@)[k].id@ == p@,
            None => !r.2,
        },
{
    let mut first: Option<usize> = None;
    let mut n: usize = 0;
    let mut hit = false;
    let mut i: usize = 0;
    while i < live.len()
        invariant
            i <= live.len(),
            n == bodies_of(live@.take(i as int), role@).len(),
            n <= i,
            first matches Some(f) ==> f < i && n > 0 && live@[f as int] == bodies_of(live@.take(i as int), role@)[0],
            n > 0 ==> first is Some,
            match pid {
                Some(p) => hit == exists|k: int| 0 <= k < bodies_of(live@.take(i as int), role@).len()
                    && #[trigger] bodies_of(live@.take(i as int), role@)[k].id@ == p@,
                None => !hit,
            },
        decreases live.len() - i,
    {
        let ghost prev = bodies_of(live@.take(i as int), role@);
        proof { assert(live@.take(i + 1).drop_last() =~= live@.take(i as int)); }
        if live[i].role == *role {
            proof {
                assert(bodies_of(live@.take(i + 1), role@) == prev.push(live@[i as int]));
            }
            if first.is_none() {
                first = Some(i);
            }
            match pid {
                Some(p) => {
                    if live[i].id == *p {
                        hit = true;
                        proof {
                            let cur = bodies_of(live@.take(i + 1), role@);
                            assert(cur[prev.len() as int].id@ == p@);
                        }
                    } else {
                        proof {
                            let cur = bodies_of(live@.take(i + 1), role@);
                            assert forall|k: int| 0 <= k < cur.len() && #[trigger] cur[k].id@ == p@ implies
                                (0 <= k < prev.len() && prev[k].id@ == p@) by {
                                if k < prev.len() { assert(cur[k] == prev[k]); }
                            }
                            if hit {
                                let k = choose|k: int| 0 <= k < prev.len() && #[trigger] prev[k].id@ == p@;
                                assert(cur[k] == prev[k]);
                            }
                        }
                    }
                },
                None => {},
            }
            n = n + 1;
        } else {
            proof {
                assert(bodies_of(live@.take(i + 1), role@) == prev);
            }
        }
        i = i + 1;
    }
    proof { assert(live@.take(i as int) =~= live@); }
    (first, n, hit)
}

/// One plan row from its status row.
fn plan_row(
    role: &String,
    disposition: RoleDisposition,
    drift: bool,
    declared: Option<&RoleDeclaration>,
    pair: Option<&LockPair>,
    live: &Vec<LiveBody>,
) -> (a: PlannedAction)
    requires
        disposition == disposition_for(
            match declared { Some(d) => Some(d@), None => None },
            match pair { Some(p) => Some(*p), None => None },
            bodies_of(live@, role@).len(),
        ),
        drift ==> pair is Some,
    ensures
        ({
            let decl = match declared { Some(d) => Some(d@), None => None::<RoleDeclView> };
            let pr = match pair { Some(p) => Some(*p), None => None::<LockPair> };
            let bodies = bodies_of(live@, role@);
            let h = hygiene(drift, pr, bodies);
            let v = verb_spec(disposition, decl, pr, bodies, h.0);
            &&& a.role@ == role@
            &&& decl_view(a.declared) == decl
            &&& a.disposition == disposition
            &&& a.discard_record == h.0
            &&& a.action == v.0
            &&& opt_view(a.target) == v.1
            &&& a.align@ == v.2
            &&& a.notes.deep_view() == h.1 + v.3 + decl_notes(v.0, decl)
        }),
{
    let ghost decl = match declared { Some(d) => Some(d@), None => None::<RoleDeclView> };
    let ghost pr = match pair { Some(p) => Some(*p), None => None::<LockPair> };
    let ghost bodies = bodies_of(live@, role@);
    let (first, n, hit) = scan_bodies(live, role, match pair { Some(p) => Some(&p.id), None => None });
    let mut notes: Vec<String> = Vec::new();
    let mut discard = false;
    match pair {
        Some(p) => {
            if drift {
                notes.push(String::from_str("lock record discarded: id ").concat(p.id.as_str()).concat(
                    " is live under another role",
                ));
                discard = true;
            } else if p.in_archived {
                notes.push(String::from_str("lock record discarded: id ").concat(p.id.as_str()).concat(
                    " sits in the archived area — retired bodies are never resurrected",
                ));
                discard = true;
            } else if !p.in_inactive && !hit {
                notes.push(String::from_str("lock record discarded: id ").concat(p.id.as_str()).concat(
                    " is not on disk in any area",
                ));
                discard = true;
            }
        },
        None => {},
    }
    let ghost h = hygiene(drift, pr, bodies);
    proof {
        assert(discard == h.0);
        assert(notes.deep_view() =~= h.1);
    }
    let mut action = TeamAction::Retain;
    let mut target: Option<String> = None;
    let mut align = AlignItems::none();
    let ghost notes_before_verb = notes.deep_view();
    match disposition {
        RoleDisposition::Active => {
            let body = &live[first.unwrap()];
            let supersedes = match pair {
                Some(p) => p.id != body.id,
                None => false,
            };
            if supersedes {
                action = TeamAction::Adopt;
                target = Some(body.id.clone());
                match pair {
                    Some(p) => {
                        if p.in_inactive {
                            notes.push(String::from_str("lock record role→").concat(p.id.as_str()).concat(
                                " superseded by the live body; the recorded body stays parked in the inactive area",
                            ));
                        }
                    },
                    None => {},
                }
            } else if discard {
                action = TeamAction::Adopt;
                target = Some(body.id.clone());
            } else {
                match declared {
                    Some(d) => {
                        let (items, extra) = alignment_of(d, body);
                        let mut j: usize = 0;
                        let ghost base = notes.deep_view();
                        while j < extra.len()
                            invariant
                                j <= extra.len(),
                                notes.deep_view() == base + extra.deep_view().take(j as int),
                            decreases extra.len() - j,
                        {
                            let ghost pre = notes.deep_view();
                            notes.push(extra[j].clone());
                            proof {
                                assert(notes.deep_view() =~= pre.push(extra.deep_view()[j as int]));
                                assert(extra.deep_view().take(j + 1) =~= extra.deep_view().take(j as int).push(extra.deep_view()[j as int]));
                            }
                            j = j + 1;
                        }
                        proof { assert(extra.deep_view().take(j as int) =~= extra.deep_view()); }
                        if items.is_empty() {
                            action = TeamAction::Retain;
                        } else {
                            action = TeamAction::AlignMetadata;
                            target = Some(body.id.clone());
                        }
                        align = items;
                    },
                    None => {},
                }
            }
        },
        RoleDisposition::Adopt => {
            action = TeamAction::Adopt;
            target = Some(live[first.unwrap()].id.clone());
        },
        RoleDisposition::Restore => {
            action = TeamAction::Restore;
            target = match pair {
                Some(p) => Some(p.id.clone()),
                None => None,
            };
        },
        RoleDisposition::Spawn => {
            action = TeamAction::Spawn;
        },
        RoleDisposition::Deactivate => {
            action = TeamAction::Deactivate;
            target = Some(live[first.unwrap()].id.clone());
        },
        RoleDisposition::Exempt => {
            notes.push(String::from_str("unmanaged role: exempt from converge (visible, never touched)"));
        },
        RoleDisposition::Duplicate => {
            let count = display_usize(n);
            notes.push(count.concat(" live bodies carry this role — the whole batch is rejected until resolved"));
        },
        RoleDisposition::Retain => {},
    }
    let ghost v = verb_spec(disposition, decl, pr, bodies, h.0);
    proof {
        assert(action == v.0);
        assert(opt_view(target) == v.1);
        assert(align@ == v.2);
        assert(notes.deep_view() =~= h.1 + v.3);
    }
    let ghost before_decl = notes.deep_view();
    if action == TeamAction::Adopt || action == TeamAction::AlignMetadata {
        match declared {
            Some(d) => {
                if d.prompt.is_some() {
                    notes.push(String::from_str(
                        "declaration prompt is not applied to a live body (no alignment basis; spawns only)",
                    ));
                }
                if d.skills.len() > 0 {
                    notes.push(String::from_str(
                        "declared skills apply at spawn; the live body's context is unchanged",
                    ));
                }
            },
            None => {},
        }
    }
    proof {
        assert(notes.deep_view() =~= before_decl + decl_notes(v.0, decl));
    }
    PlannedAction {
        role: role.clone(),
        action,
        target,
        notes,
        disposition,
        declared: match declared {
            Some(d) => Some(d.copy()),
            None => None,
        },
        align,
        discard_record: discard,
    }
}

/// `plan` is the converge plan of the declared roles against the lock,
/// the root and the live bodies: one row per status-table row, in the
/// table's order.
pub open spec fn converge_plan_table(
    roles: Seq<RoleDeclaration>,
    lock: Seq<LockPair>,
    root: Option<LiveBody>,
    live: Seq<LiveBody>,
    plan: Seq<PlannedAction>,
) -> bool {
    let nd = roles.len();
    let pool = drift_pool(root, live);
    &&& plan.len() >= nd
    &&& forall|i: int| 0 <= i < nd ==> {
        let d = #[trigger] roles[i];
        plan_row_is(plan[i], d.name@, Some(d@), lock_for(lock, d.name@), live, pool)
    }
    &&& forall|i: int| nd <= i < plan.len() ==> {
        let name = #[trigger] plan[i].role@;
        plan_row_is(plan[i], name, None, lock_for(lock, name), live, pool)
    }
    &&& sorted_strict(plan_roles(plan).skip(nd as int))
    &&& forall|name: Seq<char>| plan_roles(plan).skip(nd as int).contains(name)
        <==> undeclared(name, roles, lock, entries_of(live))
}

/// The converge plan: the status comparison's rows enriched into
/// executable verbs, in the same order the status table prints
/// (declaration order, then the undeclared roles by name), so the table
/// an operator reads and the plan converge executes cannot drift apart.
pub fn plan_converge(
    declaration: &TeamDeclaration,
    lock: &Vec<LockPair>,
    root: Option<&LiveBody>,
    live: &Vec<LiveBody>,
) -> (plan: Vec<PlannedAction>)
    ensures
        converge_plan_table(declaration.roles@, lock@, match root { Some(r) => Some(*r), None => None }, live@, plan@),
{
    let ghost pool = drift_pool(match root { Some(r) => Some(*r), None => None }, live@);
    let entry_live = entries_from(live);
    let mut all_live = entries_from(live);
    match root {
        Some(r) => {
            all_live.push(LiveEntry { id: r.id.clone(), role: r.role.clone() });
        },
        None => {},
    }
    proof { assert(all_live@ =~= pool); }
    let rows = compare_team(declaration, lock, &entry_live, &all_live);
    let ghost nd = declaration.roles@.len();
    let mut plan: Vec<PlannedAction> = Vec::new();
    let mut k: usize = 0;
    while k < rows.len()
        invariant
            k <= rows.len(),
            plan@.len() == k,
            entry_live@ == entries_of(live@),
            all_live@ == pool,
            nd == declaration.roles@.len(),
            rows@.len() >= nd,
            forall|i: int| 0 <= i < nd ==> {
                let d = #[trigger] declaration.roles@[i];
                row_is(rows@[i], d.name@, Some(d@), lock_for(lock@, d.name@), live_ids(entry_live@, d.name@), all_live@)
            },
            forall|i: int| nd <= i < rows@.len() ==> {
                let name = #[trigger] rows@[i].role@;
                row_is(rows@[i], name, None, lock_for(lock@, name), live_ids(entry_live@, name), all_live@)
            },
            forall|i: int| 0 <= i < k ==> plan@[i].role@ == #[trigger] rows@[i].role@,
            forall|i: int| 0 <= i < k && i < nd ==> {
                let d = #[trigger] declaration.roles@[i];
                plan_row_is(plan@[i], d.name@, Some(d@), lock_for(lock@, d.name@), live@, pool)
            },
            forall|i: int| nd <= i < k ==> {
                let name = #[trigger] plan@[i].role@;
                plan_row_is(plan@[i], name, None, lock_for(lock@, name), live@, pool)
            },
        decreases rows.len() - k,
    {
        let row = &rows[k];
        let pair = find_lock(lock, &row.role);
        proof {
            lemma_bodies_ids(live@, row.role@);
            assert(bodies_of(live@, row.role@).map_values(|b: LiveBody| b.id@).len() == bodies_of(live@, row.role@).len());
            if (k as int) < nd {
                let d = declaration.roles@[k as int];
                assert(row_is(rows@[k as int], d.name@, Some(d@), lock_for(lock@, d.name@), live_ids(entry_live@, d.name@), all_live@));
            } else {
                assert(row_is(rows@[k as int], row.role@, None, lock_for(lock@, row.role@), live_ids(entry_live@, row.role@), all_live@));
            }
        }
        let a = plan_row(&row.role, row.disposition, row.lock_drift, row.declaration.as_ref(), pair, live);
        plan.push(a);
        proof {
            if (k as int) < nd {
                let d = declaration.roles@[k as int];
                assert(plan_row_is(plan@[k as int], d.name@, Some(d@), lock_for(lock@, d.name@), live@, pool));
            } else {
                assert(plan_row_is(plan@[k as int], plan@[k as int].role@, None, lock_for(lock@, plan@[k as int].role@), live@, pool));
            }
        }
        k = k + 1;
    }
    proof {
        assert(plan_roles(plan@).skip(nd as int) =~= row_roles(rows@).skip(nd as int));
    }
    plan
}

// ---- the lock mapping ----

/// The value of a mapping: role, id and stamp of each binding.
pub open spec fn mapping_view(m: Seq<TeamLockEntry>) -> Seq<(Seq<char>, Seq<char>, Seq<char>)> {
    m.map_values(|e: TeamLockEntry| (e.role@, e.id@, e.converged_at@))
}

/// The index of the first binding of `role`, or -1.
pub open spec fn first_binding(m: Seq<(Seq<char>, Seq<char>, Seq<char>)>, role: Seq<char>) -> int
    decreases m.len(),
{
    if m.len() == 0 {
        -1
    } else {
        let r = first_binding(m.drop_last(), role);
        if r >= 0 {
            r
        } else if m.last().0 == role {
            m.len() - 1
        } else {
            -1
        }
    }
}

pub proof fn lemma_first_binding(m: Seq<(Seq<char>, Seq<char>, Seq<char>)>, role: Seq<char>)
    ensures
        -1 <= first_binding(m, role) < m.len(),
        first_binding(m, role) >= 0 ==> m[first_binding(m, role)].0 == role,
        forall|j: int| 0 <= j < m.len() && (first_binding(m, role) < 0 || j < first_binding(m, role))
            ==> #[trigger] m[j].0 != role,
    decreases m.len(),
{
    if m.len() > 0 {
        lemma_first_binding(m.drop_last(), role);
        assert forall|j: int| 0 <= j < m.len() && (first_binding(m, role) < 0 || j < first_binding(m, role))
            implies #[trigger] m[j].0 != role by {
            if j < m.len() - 1 {
                assert(m.drop_last()[j] == m[j]);
            }
        }
    }
}

/// The record replaces the first earlier binding of the role, or is
/// appended.
pub open spec fn upsert_spec(
    m: Seq<(Seq<char>, Seq<char>, Seq<char>)>,
    role: Seq<char>,
    id: Seq<char>,
    stamped: Seq<char>,
) -> Seq<(Seq<char>, Seq<char>, Seq<char>)> {
    let i = first_binding(m, role);
    if i >= 0 { m.update(i, (role, id, stamped)) } else { m.push((role, id, stamped)) }
}

/// Upsert one role-to-id binding into the mapping.
pub fn upsert_mapping(mapping: &mut Vec<TeamLockEntry>, role: &String, id: &String, stamped: &String)
    ensures mapping_view(final(mapping)@) == upsert_spec(mapping_view(old(mapping)@), role@, id@, stamped@),
{
    let ghost mv = mapping_view(mapping@);
    proof { lemma_first_binding(mv, role@); }
    let mut i: usize = 0;
    while i < mapping.len()
        invariant
            mapping_view(mapping@) == mv,
            mv == mapping_view(old(mapping)@),
            i <= mapping.len(),
            forall|j: int| 0 <= j < i ==> #[trigger] mapping@[j].role@ != role@,
        decreases mapping.len() - i,
    {
        if mapping[i].role == *role {
            proof {
                assert forall|j: int| 0 <= j < i implies #[trigger] mv[j].0 != role@ by {
                    assert(mv[j].0 == mapping@[j].role@);
                }
                assert(mv[i as int].0 == role@);
                lemma_first_binding(mv, role@);
                assert(first_binding(mv, role@) == i);
            }
            let entry = TeamLockEntry { role: role.clone(), id: id.clone(), converged_at: stamped.clone() };
            mapping.set(i, entry);
            proof { assert(mapping_view(mapping@) =~= upsert_spec(mv, role@, id@, stamped@)); }
            return;
        }
        i = i + 1;
    }
    proof {
        lemma_first_binding(mv, role@);
        if first_binding(mv, role@) >= 0 {
            let f = first_binding(mv, role@);
            assert(mapping@[f].role@ == mv[f].0);
        }
    }
    mapping.push(TeamLockEntry { role: role.clone(), id: id.clone(), converged_at: stamped.clone() });
    proof { assert(mapping_view(mapping@) =~= upsert_spec(mv, role@, id@, stamped@)); }
}

/// The value of a spawned-id table.
pub open spec fn id_table(v: Seq<(String, String)>) -> Map<Seq<char>, Seq<char>> {
    pairs_map(v).map_values(|s: String| s@)
}

/// The binding one plan row contributes without executing: the known
/// target of a restore, adopt or deactivate row; a spawn row only
/// through the spawned-id table.
pub open spec fn row_binding(a: PlannedAction, spawned: Option<Map<Seq<char>, Seq<char>>>) -> Option<Seq<char>> {
    match a.action {
        TeamAction::Spawn => match spawned {
            Some(t) => if t.contains_key(a.role@) { Some(t[a.role@]) } else { None },
            None => None,
        },
        TeamAction::Restore | TeamAction::Adopt | TeamAction::Deactivate => opt_view(a.target),
        _ => None,
    }
}

/// The mapping after folding the plan rows in order.
pub open spec fn project_spec(
    m: Seq<(Seq<char>, Seq<char>, Seq<char>)>,
    plan: Seq<PlannedAction>,
    spawned: Option<Map<Seq<char>, Seq<char>>>,
    stamped: Seq<char>,
) -> Seq<(Seq<char>, Seq<char>, Seq<char>)>
    decreases plan.len(),
{
    if plan.len() == 0 {
        m
    } else {
        let prev = project_spec(m, plan.drop_last(), spawned, stamped);
        match row_binding(plan.last(), spawned) {
            Some(id) => upsert_spec(prev, plan.last().role@, id, stamped),
            None => prev,
        }
    }
}

/// Fold a plan into the mapping without executing it: restore, adopt
/// and deactivate rows contribute their known ids; spawn rows only when
/// a post-execution id table is supplied (dry runs never have one).
pub fn project_mapping(
    mapping: &mut Vec<TeamLockEntry>,
    plan: &Vec<PlannedAction>,
    spawned: Option<&Vec<(String, String)>>,
    stamped: &String,
)
    requires
        spawned matches Some(t) ==> keys_unique(t@),
    ensures
        mapping_view(final(mapping)@) == project_spec(
            mapping_view(old(mapping)@),
            plan@,
            match spawned { Some(t) => Some(id_table(t@)), None => None },
            stamped@,
        ),
{
    let ghost sp = match spawned { Some(t) => Some(id_table(t@)), None => None::<Map<Seq<char>, Seq<char>>> };
    let ghost m0 = mapping_view(mapping@);
    let mut k: usize = 0;
    while k < plan.len()
        invariant
            k <= plan.len(),
            spawned matches Some(t) ==> keys_unique(t@),
            sp == match spawned { Some(t) => Some(id_table(t@)), None => None::<Map<Seq<char>, Seq<char>>> },
            mapping_view(mapping@) == project_spec(m0, plan@.take(k as int), sp, stamped@),
        decreases plan.len() - k,
    {
        let a = &plan[k];
        proof {
            assert(plan@.take(k + 1).drop_last() =~= plan@.take(k as int));
            assert(plan@.take(k + 1).last() == plan@[k as int]);
        }
        match a.action {
            TeamAction::Spawn => {
                match spawned {
                    Some(t) => {
                        match find_key(t, &a.role) {
                            Some(i) => {
                                proof {
                                    crate::keyed::lemma_lookup(t@, i as int);
                                }
                                upsert_mapping(mapping, &a.role, &t[i].1, stamped);
                            },
                            None => {},
                        }
                    },
                    None => {},
                }
            },
            TeamAction::Restore | TeamAction::Adopt | TeamAction::Deactivate => {
                match &a.target {
                    Some(id) => {
                        upsert_mapping(mapping, &a.role, id, stamped);
                    },
                    None => {},
                }
            },
            _ => {},
        }
        k = k + 1;
    }
    proof { assert(plan@.take(k as int) =~= plan@); }
}

/// The plan row a role keys to: the last one naming it.
pub open spec fn plan_for(plan: Seq<PlannedAction>, role: Seq<char>) -> Option<PlannedAction>
    decreases plan.len(),
{
    if plan.len() == 0 {
        None
    } else if plan.last().role@ == role {
        Some(plan.last())
    } else {
        plan_for(plan.drop_last(), role)
    }
}

/// A lock record survives planning unless its role's plan row discarded
/// it.
pub open spec fn record_survives(plan: Seq<PlannedAction>, p: LockPair) -> bool {
    match plan_for(plan, p.role@) {
        Some(a) => !a.discard_record,
        None => true,
    }
}

/// The seeded mapping: every surviving lock record, in lock order,
/// stamped.
pub open spec fn seed_spec(lock: Seq<LockPair>, plan: Seq<PlannedAction>, stamped: Seq<char>) -> Seq<(Seq<char>, Seq<char>, Seq<char>)>
    decreases lock.len(),
{
    if lock.len() == 0 {
        Seq::empty()
    } else {
        let prev = seed_spec(lock.drop_last(), plan, stamped);
        if record_survives(plan, lock.last()) {
            prev.push((lock.last().role@, lock.last().id@, stamped))
        } else {
            prev
        }
    }
}

fn survives(plan: &Vec<PlannedAction>, p: &LockPair) -> (b: bool)
    ensures b == record_survives(plan@, *p),
{
    let mut i: usize = plan.len();
    proof { assert(plan@.take(i as int) =~= plan@); }
    while i > 0
        invariant
            i <= plan.len(),
            plan_for(plan@, p.role@) == plan_for(plan@.take(i as int), p.role@),
        decreases i,
    {
        proof { assert(plan@.take(i as int).drop_last() =~= plan@.take(i - 1)); }
        if plan[i - 1].role == p.role {
            return !plan[i - 1].discard_record;
        }
        i = i - 1;
    }
    true
}

/// Seed the response mapping with every input record that survived
/// planning (drifted, archived and missing records are out, annotated on
/// their rows). Dormant records stay.
pub fn seed_mapping(lock: &Vec<LockPair>, plan: &Vec<PlannedAction>, stamped: &String) -> (m: Vec<TeamLockEntry>)
    ensures mapping_view(m@) == seed_spec(lock@, plan@, stamped@),
{
    let mut out: Vec<TeamLockEntry> = Vec::new();
    let mut i: usize = 0;
    while i < lock.len()
        invariant
            i <= lock.len(),
            mapping_view(out@) == seed_spec(lock@.take(i as int), plan@, stamped@),
        decreases lock.len() - i,
    {
        proof { assert(lock@.take(i + 1).drop_last() =~= lock@.take(i as int)); }
        if survives(plan, &lock[i]) {
            let ghost before = mapping_view(out@);
            out.push(TeamLockEntry { role: lock[i].role.clone(), id: lock[i].id.clone(), converged_at: stamped.clone() });
            proof { assert(mapping_view(out@) =~= before.push((lock@[i as int].role@, lock@[i as int].id@, stamped@))); }
        }
        i = i + 1;
    }
    proof { assert(lock@.take(i as int) =~= lock@); }
    out
}

// ---- preflight ----

/// The value of a list of rejections.
pub open spec fn rej_view(r: Seq<TeamRejection>) -> Seq<(TeamRejectionKind, Seq<char>)> {
    r.map_values(|x: TeamRejection| (x.kind, x.message@))
}

fn push_rej(out: &mut Vec<TeamRejection>, kind: TeamRejectionKind, message: String)
    ensures rej_view(final(out)@) == rej_view(old(out)@).push((kind, message@)),
{
    out.push(TeamRejection { kind, message });
    proof { assert(rej_view(out@) =~= rej_view(old(out)@).push((kind, message@))); }
}

/// The role first recorded with `id`, if any.
pub open spec fn first_role_with_id(lock: Seq<LockPair>, id: Seq<char>) -> Option<Seq<char>>
    decreases lock.len(),
{
    if lock.len() == 0 {
        None
    } else {
        match first_role_with_id(lock.drop_last(), id) {
            Some(r) => Some(r),
            None => if lock.last().id@ == id { Some(lock.last().role@) } else { None },
        }
    }
}

pub open spec fn msg_ambiguous(id: Seq<char>, first: Seq<char>, role: Seq<char>) -> Seq<char> {
    "lock maps agent "@ + id + " to both "@ + debug_quote(first) + " and "@ + debug_quote(role)
        + " — run `kallip team lock rebuild`"@
}

/// One id keyed under two roles: one refusal per later record.
pub open spec fn ambiguity_rejs(lock: Seq<LockPair>) -> Seq<(TeamRejectionKind, Seq<char>)>
    decreases lock.len(),
{
    if lock.len() == 0 {
        Seq::empty()
    } else {
        let prev = ambiguity_rejs(lock.drop_last());
        match first_role_with_id(lock.drop_last(), lock.last().id@) {
            Some(r) => prev.push((TeamRejectionKind::LockAmbiguity, msg_ambiguous(lock.last().id@, r, lock.last().role@))),
            None => prev,
        }
    }
}

pub open spec fn msg_root_role() -> Seq<char> {
    "declaration declares the reserved role \"root\": the root is boot-built and cannot converge; remove the role from the declaration"@
}

/// A declared `root` role: the root is boot-built.
pub open spec fn root_rejs(plan: Seq<PlannedAction>) -> Seq<(TeamRejectionKind, Seq<char>)>
    decreases plan.len(),
{
    if plan.len() == 0 {
        Seq::empty()
    } else {
        let prev = root_rejs(plan.drop_last());
        if plan.last().role@ == root_name() && plan.last().declared is Some {
            prev.push((TeamRejectionKind::RootRole, msg_root_role()))
        } else {
            prev
        }
    }
}

pub open spec fn msg_duplicate_role(role: Seq<char>) -> Seq<char> {
    "role "@ + debug_quote(role)
        + " has multiple live bodies — retire or rename one before converging (converge never picks for you)"@
}

/// Duplicate live bodies under one role.
pub open spec fn duplicate_rejs(plan: Seq<PlannedAction>) -> Seq<(TeamRejectionKind, Seq<char>)>
    decreases plan.len(),
{
    if plan.len() == 0 {
        Seq::empty()
    } else {
        let prev = duplicate_rejs(plan.drop_last());
        if plan.last().disposition == RoleDisposition::Duplicate {
            prev.push((TeamRejectionKind::Duplicate, msg_duplicate_role(plan.last().role@)))
        } else {
            prev
        }
    }
}

/// The first live body with id `id`, if any.
pub open spec fn body_with_id(live: Seq<LiveBody>, id: Seq<char>) -> Option<LiveBody>
    decreases live.len(),
{
    if live.len() == 0 {
        None
    } else {
        match body_with_id(live.drop_last(), id) {
            Some(b) => Some(b),
            None => if live.last().id@ == id { Some(live.last()) } else { None },
        }
    }
}

pub open spec fn msg_busy(role: Seq<char>, id: Seq<char>) -> Seq<char> {
    "role "@ + debug_quote(role) + " agent "@ + id
        + " is busy — wait for it to go idle (re-run), or pass force to interrupt it (recorded as an escape)"@
}

pub open spec fn msg_children(role: Seq<char>, id: Seq<char>, n: nat) -> Seq<char> {
    "role "@ + debug_quote(role) + " agent "@ + id + " has "@ + decimal(n)
        + " live subagent(s) — deactivate or remove them first"@
}

pub open spec fn msg_stale(id: Seq<char>) -> Seq<char> {
    "deactivating agent "@ + id
        + " would overwrite a stale inactive body with the same id — resolve it manually first"@
}

/// The refusals of one deactivation row: a busy target unless forced,
/// a target with live children always, and a stale inactive body under
/// the same id.
pub open spec fn deact_row_rejs(a: PlannedAction, live: Seq<LiveBody>, force: bool, stale: Seq<Seq<char>>) -> Seq<(TeamRejectionKind, Seq<char>)> {
    let body = match a.target {
        Some(t) => body_with_id(live, t@),
        None => None,
    };
    let busy = match body {
        Some(b) => if b.busy && !force { seq![(TeamRejectionKind::Busy, msg_busy(a.role@, b.id@))] } else { Seq::empty() },
        None => Seq::empty(),
    };
    let kids = match body {
        Some(b) => if b.children > 0 {
            seq![(TeamRejectionKind::LiveChildren, msg_children(a.role@, b.id@, b.children as nat))]
        } else {
            Seq::empty()
        },
        None => Seq::empty(),
    };
    let st = match a.target {
        Some(t) => if stale.contains(t@) { seq![(TeamRejectionKind::StaleInactive, msg_stale(t@))] } else { Seq::empty() },
        None => Seq::empty(),
    };
    busy + kids + st
}

/// Deactivation safety over the whole plan.
pub open spec fn deact_rejs(plan: Seq<PlannedAction>, live: Seq<LiveBody>, force: bool, stale: Seq<Seq<char>>) -> Seq<(TeamRejectionKind, Seq<char>)>
    decreases plan.len(),
{
    if plan.len() == 0 {
        Seq::empty()
    } else {
        let prev = deact_rejs(plan.drop_last(), live, force, stale);
        if plan.last().action == TeamAction::Deactivate {
            prev + deact_row_rejs(plan.last(), live, force, stale)
        } else {
            prev
        }
    }
}

/// How many rows of the plan carry `verb`.
pub open spec fn count_action(plan: Seq<PlannedAction>, verb: TeamAction) -> nat
    decreases plan.len(),
{
    if plan.len() == 0 {
        0
    } else {
        count_action(plan.drop_last(), verb) + if plan.last().action == verb { 1nat } else { 0nat }
    }
}

/// `names` joined by `", "`.
pub open spec fn join_names(names: Seq<Seq<char>>) -> Seq<char>
    decreases names.len(),
{
    if names.len() == 0 {
        Seq::empty()
    } else if names.len() == 1 {
        names[0]
    } else {
        join_names(names.drop_last()) + ", "@ + names.last()
    }
}

pub open spec fn msg_root_down() -> Seq<char> {
    "cannot spawn: the tagma root is not live (declaration roles spawn under it)"@
}

pub open spec fn msg_no_set(role: Seq<char>) -> Seq<char> {
    "role "@ + debug_quote(role) + " cannot spawn: the declaration names no profile_set"@
}

pub open spec fn msg_unknown_set(role: Seq<char>, set: Seq<char>, known: Seq<Seq<char>>) -> Seq<char> {
    "role "@ + debug_quote(role) + ": unknown profile_set "@ + debug_quote(set) + " (available: "@
        + join_names(known) + ")"@
}

pub open spec fn msg_class_above_root(role: Seq<char>, raw: Seq<char>) -> Seq<char> {
    "role "@ + debug_quote(role) + ": permission_class "@ + debug_quote(raw)
        + " exceeds the root's own class — converge never grants above the supervisor"@
}

pub open spec fn msg_class_unknown(role: Seq<char>, raw: Seq<char>) -> Seq<char> {
    "role "@ + debug_quote(role) + ": permission_class "@ + debug_quote(raw) + " is not a known spelling"@
}

pub open spec fn msg_skill(role: Seq<char>, skill: Seq<char>, err: Seq<char>) -> Seq<char> {
    "role "@ + debug_quote(role) + ": skill "@ + debug_quote(skill) + " cannot be loaded ("@ + err + ")"@
}

/// The load error of `skill`, if it cannot be loaded.
pub open spec fn skill_error(errors: Seq<(String, String)>, skill: Seq<char>) -> Option<Seq<char>> {
    if crate::keyed::has_key(errors, skill) {
        Some(errors[choose|i: int| 0 <= i < errors.len() && errors[i].0@ == skill].1@)
    } else {
        None
    }
}

/// The skill refusals of one spawn row, in declared order.
pub open spec fn skill_rejs(role: Seq<char>, skills: Seq<Seq<char>>, errors: Seq<(String, String)>) -> Seq<(TeamRejectionKind, Seq<char>)>
    decreases skills.len(),
{
    if skills.len() == 0 {
        Seq::empty()
    } else {
        let prev = skill_rejs(role, skills.drop_last(), errors);
        match skill_error(errors, skills.last()) {
            Some(e) => prev.push((TeamRejectionKind::SpawnSkill, msg_skill(role, skills.last(), e))),
            None => prev,
        }
    }
}

/// The refusals of one spawn row: a missing or unknown profile set, a
/// class above the root's or not a known spelling, unloadable skills.
pub open spec fn spawn_row_rejs(
    a: PlannedAction,
    root: Option<LiveBody>,
    known: Seq<Seq<char>>,
    errors: Seq<(String, String)>,
) -> Seq<(TeamRejectionKind, Seq<char>)> {
    match a.declared {
        None => Seq::empty(),
        Some(d) => {
            let dv = d@;
            let set = match dv.profile_set {
                None => seq![(TeamRejectionKind::SpawnProfileSet, msg_no_set(a.role@))],
                Some(s) => if known.contains(s) {
                    Seq::empty()
                } else {
                    seq![(TeamRejectionKind::SpawnProfileSet, msg_unknown_set(a.role@, s, known))]
                },
            };
            let class = match dv.permission_class {
                None => Seq::empty(),
                Some(raw) => match parse_class_spec(raw) {
                    Some(want) => match root {
                        Some(r) => if class_rank(want) > class_rank(r.permissions_class) {
                            seq![(TeamRejectionKind::SpawnProfileClass, msg_class_above_root(a.role@, raw))]
                        } else {
                            Seq::empty()
                        },
                        None => Seq::empty(),
                    },
                    None => seq![(TeamRejectionKind::SpawnProfileClass, msg_class_unknown(a.role@, raw))],
                },
            };
            set + class + skill_rejs(a.role@, dv.skills, errors)
        },
    }
}

/// The per-row spawn refusals over the whole plan.
pub open spec fn spawn_rows_rejs(
    plan: Seq<PlannedAction>,
    root: Option<LiveBody>,
    known: Seq<Seq<char>>,
    errors: Seq<(String, String)>,
) -> Seq<(TeamRejectionKind, Seq<char>)>
    decreases plan.len(),
{
    if plan.len() == 0 {
        Seq::empty()
    } else {
        let prev = spawn_rows_rejs(plan.drop_last(), root, known, errors);
        if plan.last().action == TeamAction::Spawn {
            prev + spawn_row_rejs(plan.last(), root, known, errors)
        } else {
            prev
        }
    }
}

/// Spawn validity: with any spawn planned, a down root refuses, then
/// each spawn row is checked.
pub open spec fn spawn_rejs(
    plan: Seq<PlannedAction>,
    root: Option<LiveBody>,
    known: Seq<Seq<char>>,
    errors: Seq<(String, String)>,
) -> Seq<(TeamRejectionKind, Seq<char>)> {
    if count_action(plan, TeamAction::Spawn) == 0 {
        Seq::empty()
    } else {
        (if root matches Some(r) && !r.faulted { Seq::empty() } else { seq![(TeamRejectionKind::SpawnRootDown, msg_root_down())] })
            + spawn_rows_rejs(plan, root, known, errors)
    }
}

pub open spec fn msg_over_agents(projected: nat, max: nat) -> Seq<char> {
    "converge would hold "@ + decimal(projected) + " agents over the limit of "@ + decimal(max)
        + " — shrink the declaration or raise the limit"@
}

pub open spec fn msg_over_children(after: nat, max: nat) -> Seq<char> {
    "the root would hold "@ + decimal(after) + "/"@ + decimal(max)
        + " subagents after converge — deactivate roles or raise the limit"@
}

/// Batch-wide capacity: the agent count and the root's subagent count
/// after the plan, against the limits.
pub open spec fn capacity_rejs(
    plan: Seq<PlannedAction>,
    n_live: nat,
    root: Option<LiveBody>,
    max_agents: nat,
    max_subagents: nat,
) -> Seq<(TeamRejectionKind, Seq<char>)> {
    let net = count_action(plan, TeamAction::Spawn) + count_action(plan, TeamAction::Restore)
        - count_action(plan, TeamAction::Deactivate);
    let projected = n_live + net;
    (if projected > max_agents {
        seq![(TeamRejectionKind::CapacityAgents, msg_over_agents(projected as nat, max_agents))]
    } else {
        Seq::empty()
    }) + match root {
        Some(r) => if r.children + net > max_subagents {
            seq![(TeamRejectionKind::CapacityChildren, msg_over_children((r.children + net) as nat, max_subagents))]
        } else {
            Seq::empty()
        },
        None => Seq::empty(),
    }
}

/// The whole preflight verdict, group by group.
pub open spec fn preflight_spec(
    plan: Seq<PlannedAction>,
    root: Option<LiveBody>,
    lock: Seq<LockPair>,
    live: Seq<LiveBody>,
    force: bool,
    known: Seq<Seq<char>>,
    stale: Seq<Seq<char>>,
    errors: Seq<(String, String)>,
    max_agents: nat,
    max_subagents: nat,
) -> Seq<(TeamRejectionKind, Seq<char>)> {
    ambiguity_rejs(lock) + root_rejs(plan) + duplicate_rejs(plan) + deact_rejs(plan, live, force, stale)
        + spawn_rejs(plan, root, known, errors) + capacity_rejs(plan, live.len(), root, max_agents, max_subagents)
}

fn add_ambiguity(out: &mut Vec<TeamRejection>, lock: &Vec<LockPair>)
    ensures rej_view(final(out)@) == rej_view(old(out)@) + ambiguity_rejs(lock@),
{
    let ghost base = rej_view(out@);
    let mut i: usize = 0;
    proof { assert(base + ambiguity_rejs(lock@.take(0)) =~= base); }
    while i < lock.len()
        invariant
            i <= lock.len(),
            rej_view(out@) == base + ambiguity_rejs(lock@.take(i as int)),
        decreases lock.len() - i,
    {
        let ghost pre = lock@.take(i as int);
        proof {
            assert(lock@.take(i + 1).drop_last() =~= pre);
            assert(lock@.take(i + 1).last() == lock@[i as int]);
        }
        let mut j: usize = 0;
        let mut prev: Option<usize> = None;
        while j < i
            invariant
                j <= i < lock.len(),
                pre == lock@.take(i as int),
                prev matches Some(f) ==> f < j && first_role_with_id(pre.take(j as int), lock@[i as int].id@) == Some(lock@[f as int].role@),
                prev is None ==> first_role_with_id(pre.take(j as int), lock@[i as int].id@) is None,
            decreases i - j,
        {
            proof { assert(pre.take(j + 1).drop_last() =~= pre.take(j as int)); }
            if prev.is_none() && lock[j].id == lock[i].id {
                prev = Some(j);
            }
            j = j + 1;
        }
        proof { assert(pre.take(j as int) =~= pre); }
        match prev {
            Some(f) => {
                let q1 = debug_quoted(lock[f].role.as_str());
                let q2 = debug_quoted(lock[i].role.as_str());
                let m = String::from_str("lock maps agent ").concat(lock[i].id.as_str()).concat(" to both ").concat(
                    q1.as_str(),
                ).concat(" and ").concat(q2.as_str()).concat(" — run `kallip team lock rebuild`");
                push_rej(out, TeamRejectionKind::LockAmbiguity, m);
            },
            None => {},
        }
        proof {
            assert(base + ambiguity_rejs(lock@.take(i + 1)) =~= rej_view(out@));
        }
        i = i + 1;
    }
    proof { assert(lock@.take(i as int) =~= lock@); }
}

fn add_root_and_duplicates(out: &mut Vec<TeamRejection>, plan: &Vec<PlannedAction>)
    ensures rej_view(final(out)@) == rej_view(old(out)@) + root_rejs(plan@) + duplicate_rejs(plan@),
{
    let ghost base = rej_view(out@);
    let root = "root";
    proof {
        reveal_strlit("root");
        assert(root@ =~= root_name());
    }
    let mut i: usize = 0;
    proof { assert(base + root_rejs(plan@.take(0)) =~= base); }
    while i < plan.len()
        invariant
            i <= plan.len(),
            root@ == root_name(),
            rej_view(out@) == base + root_rejs(plan@.take(i as int)),
        decreases plan.len() - i,
    {
        proof { assert(plan@.take(i + 1).drop_last() =~= plan@.take(i as int)); }
        if crate::config::str_eq(plan[i].role.as_str(), root) && plan[i].declared.is_some() {
            push_rej(
                out,
                TeamRejectionKind::RootRole,
                String::from_str(
                    "declaration declares the reserved role \"root\": the root is boot-built and cannot converge; remove the role from the declaration",
                ),
            );
        }
        proof { assert(base + root_rejs(plan@.take(i + 1)) =~= rej_view(out@)); }
        i = i + 1;
    }
    proof { assert(plan@.take(i as int) =~= plan@); }
    let ghost mid = rej_view(out@);
    let mut k: usize = 0;
    proof { assert(mid + duplicate_rejs(plan@.take(0)) =~= mid); }
    while k < plan.len()
        invariant
            k <= plan.len(),
            rej_view(out@) == mid + duplicate_rejs(plan@.take(k as int)),
        decreases plan.len() - k,
    {
        proof { assert(plan@.take(k + 1).drop_last() =~= plan@.take(k as int)); }
        if plan[k].disposition == RoleDisposition::Duplicate {
            let q = debug_quoted(plan[k].role.as_str());
            push_rej(
                out,
                TeamRejectionKind::Duplicate,
                String::from_str("role ").concat(q.as_str()).concat(
                    " has multiple live bodies — retire or rename one before converging (converge never picks for you)",
                ),
            );
        }
        proof { assert(mid + duplicate_rejs(plan@.take(k + 1)) =~= rej_view(out@)); }
        k = k + 1;
    }
    proof { assert(plan@.take(k as int) =~= plan@); }
}

fn find_body<'a>(live: &'a Vec<LiveBody>, id: &String) -> (r: Option<&'a LiveBody>)
    ensures
        match body_with_id(live@, id@) {
            Some(b) => r == Some(&b),
            None => r is None,
        },
{
    let mut i: usize = 0;
    while i < live.len()
        invariant
            i <= live.len(),
            body_with_id(live@.take(i as int), id@) is None,
        decreases live.len() - i,
    {
        proof { assert(live@.take(i + 1).drop_last() =~= live@.take(i as int)); }
        if live[i].id == *id {
            proof { lemma_body_prefix(live@, id@, i as int + 1); }
            return Some(&live[i]);
        }
        i = i + 1;
    }
    proof { assert(live@.take(i as int) =~= live@); }
    None
}

/// A body found in a prefix is the body found in the whole list.
proof fn lemma_body_prefix(live: Seq<LiveBody>, id: Seq<char>, k: int)
    requires
        0 <= k <= live.len(),
        body_with_id(live.take(k), id) is Some,
    ensures
        body_with_id(live, id) == body_with_id(live.take(k), id),
    decreases live.len() - k,
{
    if k < live.len() {
        assert(live.take(k + 1).drop_last() =~= live.take(k));
        lemma_body_prefix(live, id, k + 1);
    } else {
        assert(live.take(k) =~= live);
    }
}

fn add_deactivation(out: &mut Vec<TeamRejection>, plan: &Vec<PlannedAction>, live: &Vec<LiveBody>, force: bool, stale: &Vec<String>)
    ensures rej_view(final(out)@) == rej_view(old(out)@) + deact_rejs(plan@, live@, force, stale.deep_view()),
{
    let ghost base = rej_view(out@);
    let mut i: usize = 0;
    proof { assert(base + deact_rejs(plan@.take(0), live@, force, stale.deep_view()) =~= base); }
    while i < plan.len()
        invariant
            i <= plan.len(),
            rej_view(out@) == base + deact_rejs(plan@.take(i as int), live@, force, stale.deep_view()),
        decreases plan.len() - i,
    {
        proof { assert(plan@.take(i + 1).drop_last() =~= plan@.take(i as int)); }
        let a = &plan[i];
        if a.action == TeamAction::Deactivate {
            let ghost pre = rej_view(out@);
            let body = match &a.target {
                Some(t) => find_body(live, t),
                None => None,
            };
            match body {
                Some(b) => {
                    if b.busy && !force {
                        let q = debug_quoted(a.role.as_str());
                        push_rej(out, TeamRejectionKind::Busy, String::from_str("role ").concat(q.as_str()).concat(" agent ").concat(
                            b.id.as_str(),
                        ).concat(
                            " is busy — wait for it to go idle (re-run), or pass force to interrupt it (recorded as an escape)",
                        ));
                    }
                    if b.children > 0 {
                        let q = debug_quoted(a.role.as_str());
                        let n = display_usize(b.children);
                        push_rej(out, TeamRejectionKind::LiveChildren, String::from_str("role ").concat(q.as_str()).concat(" agent ").concat(
                            b.id.as_str(),
                        ).concat(" has ").concat(n.as_str()).concat(" live subagent(s) — deactivate or remove them first"));
                    }
                },
                None => {},
            }
            match &a.target {
                Some(t) => {
                    if crate::team::status::contains_string(stale, t) {
                        push_rej(out, TeamRejectionKind::StaleInactive, String::from_str("deactivating agent ").concat(t.as_str()).concat(
                            " would overwrite a stale inactive body with the same id — resolve it manually first",
                        ));
                    }
                },
                None => {},
            }
            proof { assert(rej_view(out@) =~= pre + deact_row_rejs(plan@[i as int], live@, force, stale.deep_view())); }
        }
        proof {
            assert(base + deact_rejs(plan@.take(i + 1), live@, force, stale.deep_view()) =~= rej_view(out@));
        }
        i = i + 1;
    }
    proof { assert(plan@.take(i as int) =~= plan@); }
}

fn count_verb(plan: &Vec<PlannedAction>, verb: TeamAction) -> (n: usize)
    ensures n == count_action(plan@, verb),
{
    let mut n: usize = 0;
    let mut i: usize = 0;
    while i < plan.len()
        invariant
            i <= plan.len(),
            n == count_action(plan@.take(i as int), verb),
            n <= i,
        decreases plan.len() - i,
    {
        proof { assert(plan@.take(i + 1).drop_last() =~= plan@.take(i as int)); }
        if plan[i].action == verb {
            n = n + 1;
        }
        i = i + 1;
    }
    proof { assert(plan@.take(i as int) =~= plan@); }
    n
}

/// `names` joined by `", "`.
pub fn join_with_commas(names: &Vec<String>) -> (r: String)
    ensures r@ == join_names(names.deep_view()),
{
    let mut out = String::new();
    let mut i: usize = 0;
    while i < names.len()
        invariant
            i <= names.len(),
            out@ == join_names(names.deep_view().take(i as int)),
        decreases names.len() - i,
    {
        proof {
            assert(names.deep_view().take(i + 1).drop_last() =~= names.deep_view().take(i as int));
            assert(names.deep_view()[i as int] == names@[i as int]@);
        }
        if i == 0 {
            out = names[0].clone();
            proof { assert(names.deep_view().take(1) =~= seq![names@[0]@]); }
        } else {
            out = out.concat(", ").concat(names[i].as_str());
        }
        i = i + 1;
    }
    proof { assert(names.deep_view().take(i as int) =~= names.deep_view()); }
    out
}

fn skill_error_of<'a>(errors: &'a Vec<(String, String)>, skill: &String) -> (r: Option<&'a String>)
    requires keys_unique(errors@),
    ensures
        match skill_error(errors@, skill@) {
            Some(e) => r matches Some(x) && x@ == e,
            None => r is None,
        },
{
    match find_key(errors, skill) {
        Some(i) => {
            proof {
                let c = choose|k: int| 0 <= k < errors@.len() && errors@[k].0@ == skill@;
                assert(c == i) by {
                    if c != i {
                        assert(errors@[c].0@ == errors@[i as int].0@);
                    }
                }
            }
            Some(&errors[i].1)
        },
        None => None,
    }
}

fn add_spawn_row(
    out: &mut Vec<TeamRejection>,
    a: &PlannedAction,
    root: Option<&LiveBody>,
    known: &Vec<String>,
    errors: &Vec<(String, String)>,
)
    requires keys_unique(errors@),
    ensures
        rej_view(final(out)@) == rej_view(old(out)@) + spawn_row_rejs(
            *a,
            match root { Some(r) => Some(*r), None => None },
            known.deep_view(),
            errors@,
        ),
{
    let ghost base = rej_view(out@);
    match &a.declared {
        None => {
            proof { assert(rej_view(out@) =~= base + Seq::<(TeamRejectionKind, Seq<char>)>::empty()); }
        },
        Some(d) => {
            match &d.profile_set {
                None => {
                    let q = debug_quoted(a.role.as_str());
                    push_rej(out, TeamRejectionKind::SpawnProfileSet, String::from_str("role ").concat(q.as_str()).concat(
                        " cannot spawn: the declaration names no profile_set",
                    ));
                },
                Some(set) => {
                    if !crate::team::status::contains_string(known, set) {
                        let q = debug_quoted(a.role.as_str());
                        let qs = debug_quoted(set.as_str());
                        let avail = join_with_commas(known);
                        push_rej(out, TeamRejectionKind::SpawnProfileSet, String::from_str("role ").concat(q.as_str()).concat(
                            ": unknown profile_set ",
                        ).concat(qs.as_str()).concat(" (available: ").concat(avail.as_str()).concat(")"));
                    }
                },
            }
            let ghost after_set = rej_view(out@);
            match &d.permission_class {
                None => {},
                Some(raw) => match parse_class(raw.as_str()) {
                    Some(want) => match root {
                        Some(r) => {
                            if want.exceeds(&r.permissions_class) {
                                let q = debug_quoted(a.role.as_str());
                                let qr = debug_quoted(raw.as_str());
                                push_rej(out, TeamRejectionKind::SpawnProfileClass, String::from_str("role ").concat(q.as_str()).concat(
                                    ": permission_class ",
                                ).concat(qr.as_str()).concat(
                                    " exceeds the root's own class — converge never grants above the supervisor",
                                ));
                            }
                        },
                        None => {},
                    },
                    None => {
                        let q = debug_quoted(a.role.as_str());
                        let qr = debug_quoted(raw.as_str());
                        push_rej(out, TeamRejectionKind::SpawnProfileClass, String::from_str("role ").concat(q.as_str()).concat(
                            ": permission_class ",
                        ).concat(qr.as_str()).concat(" is not a known spelling"));
                    },
                },
            }
            let ghost after_class = rej_view(out@);
            let ghost skills = d.skills.deep_view();
            let mut k: usize = 0;
            proof { assert(after_class + skill_rejs(a.role@, skills.take(0), errors@) =~= after_class); }
            while k < d.skills.len()
                invariant
                    k <= d.skills.len(),
                    keys_unique(errors@),
                    skills == d.skills.deep_view(),
                    rej_view(out@) == after_class + skill_rejs(a.role@, skills.take(k as int), errors@),
                decreases d.skills.len() - k,
            {
                proof {
                    assert(skills.take(k + 1).drop_last() =~= skills.take(k as int));
                    assert(skills.take(k + 1).last() == d.skills@[k as int]@);
                }
                match skill_error_of(errors, &d.skills[k]) {
                    Some(e) => {
                        let q = debug_quoted(a.role.as_str());
                        let qk = debug_quoted(d.skills[k].as_str());
                        push_rej(out, TeamRejectionKind::SpawnSkill, String::from_str("role ").concat(q.as_str()).concat(
                            ": skill ",
                        ).concat(qk.as_str()).concat(" cannot be loaded (").concat(e.as_str()).concat(")"));
                    },
                    None => {},
                }
                proof { assert(after_class + skill_rejs(a.role@, skills.take(k + 1), errors@) =~= rej_view(out@)); }
                k = k + 1;
            }
            proof {
                assert(skills.take(k as int) =~= skills);
                assert(rej_view(out@) =~= base + spawn_row_rejs(
                    *a,
                    match root { Some(r) => Some(*r), None => None },
                    known.deep_view(),
                    errors@,
                ));
            }
        },
    }
}

fn add_spawns(
    out: &mut Vec<TeamRejection>,
    plan: &Vec<PlannedAction>,
    root: Option<&LiveBody>,
    known: &Vec<String>,
    errors: &Vec<(String, String)>,
)
    requires keys_unique(errors@),
    ensures
        rej_view(final(out)@) == rej_view(old(out)@) + spawn_rejs(
            plan@,
            match root { Some(r) => Some(*r), None => None },
            known.deep_view(),
            errors@,
        ),
{
    let ghost rt = match root { Some(r) => Some(*r), None => None::<LiveBody> };
    let ghost base = rej_view(out@);
    if count_verb(plan, TeamAction::Spawn) == 0 {
        proof { assert(rej_view(out@) =~= base + spawn_rejs(plan@, rt, known.deep_view(), errors@)); }
        return;
    }
    let root_ok = match root {
        Some(r) => !r.faulted,
        None => false,
    };
    if !root_ok {
        push_rej(out, TeamRejectionKind::SpawnRootDown, String::from_str(
            "cannot spawn: the tagma root is not live (declaration roles spawn under it)",
        ));
    }
    let ghost mid = rej_view(out@);
    let mut i: usize = 0;
    proof { assert(mid + spawn_rows_rejs(plan@.take(0), rt, known.deep_view(), errors@) =~= mid); }
    while i < plan.len()
        invariant
            i <= plan.len(),
            keys_unique(errors@),
            rt == match root { Some(r) => Some(*r), None => None::<LiveBody> },
            rej_view(out@) == mid + spawn_rows_rejs(plan@.take(i as int), rt, known.deep_view(), errors@),
        decreases plan.len() - i,
    {
        proof { assert(plan@.take(i + 1).drop_last() =~= plan@.take(i as int)); }
        if plan[i].action == TeamAction::Spawn {
            add_spawn_row(out, &plan[i], root, known, errors);
        }
        proof { assert(mid + spawn_rows_rejs(plan@.take(i + 1), rt, known.deep_view(), errors@) =~= rej_view(out@)); }
        i = i + 1;
    }
    proof {
        assert(plan@.take(i as int) =~= plan@);
        assert(rej_view(out@) =~= base + spawn_rejs(plan@, rt, known.deep_view(), errors@));
    }
}

fn add_capacity(
    out: &mut Vec<TeamRejection>,
    plan: &Vec<PlannedAction>,
    n_live: usize,
    root: Option<&LiveBody>,
    max_agents: usize,
    max_subagents: usize,
)
    ensures
        rej_view(final(out)@) == rej_view(old(out)@) + capacity_rejs(
            plan@,
            n_live as nat,
            match root { Some(r) => Some(*r), None => None },
            max_agents as nat,
            max_subagents as nat,
        ),
{
    let ghost base = rej_view(out@);
    let spawns = count_verb(plan, TeamAction::Spawn);
    let restores = count_verb(plan, TeamAction::Restore);
    let deacts = count_verb(plan, TeamAction::Deactivate);
    let net: i128 = spawns as i128 + restores as i128 - deacts as i128;
    let projected: i128 = n_live as i128 + net;
    if projected > max_agents as i128 {
        let shown = display_u128(projected as u128);
        let limit = display_usize(max_agents);
        push_rej(out, TeamRejectionKind::CapacityAgents, String::from_str("converge would hold ").concat(shown.as_str()).concat(
            " agents over the limit of ",
        ).concat(limit.as_str()).concat(" — shrink the declaration or raise the limit"));
    }
    match root {
        Some(r) => {
            let after: i128 = r.children as i128 + net;
            if after > max_subagents as i128 {
                let shown = display_u128(after as u128);
                let limit = display_usize(max_subagents);
                push_rej(out, TeamRejectionKind::CapacityChildren, String::from_str("the root would hold ").concat(
                    shown.as_str(),
                ).concat("/").concat(limit.as_str()).concat(
                    " subagents after converge — deactivate roles or raise the limit",
                ));
            }
        },
        None => {},
    }
    proof {
        assert(rej_view(out@) =~= base + capacity_rejs(
            plan@,
            n_live as nat,
            match root { Some(r) => Some(*r), None => None },
            max_agents as nat,
            max_subagents as nat,
        ));
    }
}

/// Preflight: the whole-batch refusal pass. Structural problems (an id
/// keyed under two roles, a declared root role, duplicate live bodies,
/// invalid spawn declarations, capacity) and busy or childed
/// deactivation targets refuse with per-item guidance; only a busy
/// target yields to `force`. The caller supplies what the disk and the
/// profile bundle say: the known profile-set names (in bundle order),
/// the deactivation targets with a stale inactive body, the load errors
/// of the skills that cannot be loaded, and the two limits.
pub fn preflight_converge(
    plan: &Vec<PlannedAction>,
    root: Option<&LiveBody>,
    lock: &Vec<LockPair>,
    live: &Vec<LiveBody>,
    force: bool,
    known_sets: &Vec<String>,
    stale_inactive: &Vec<String>,
    skill_errors: &Vec<(String, String)>,
    max_agents: usize,
    max_subagents: usize,
) -> (r: Vec<TeamRejection>)
    requires keys_unique(skill_errors@),
    ensures
        rej_view(r@) == preflight_spec(
            plan@,
            match root { Some(x) => Some(*x), None => None },
            lock@,
            live@,
            force,
            known_sets.deep_view(),
            stale_inactive.deep_view(),
            skill_errors@,
            max_agents as nat,
            max_subagents as nat,
        ),
{
    let mut out: Vec<TeamRejection> = Vec::new();
    proof { assert(rej_view(out@) =~= Seq::<(TeamRejectionKind, Seq<char>)>::empty()); }
    add_ambiguity(&mut out, lock);
    add_root_and_duplicates(&mut out, plan);
    add_deactivation(&mut out, plan, live, force, stale_inactive);
    add_spawns(&mut out, plan, root, known_sets, skill_errors);
    add_capacity(&mut out, plan, live.len(), root, max_agents, max_subagents);
    proof {
        assert(rej_view(out@) =~= preflight_spec(
            plan@,
            match root { Some(x) => Some(*x), None => None },
            lock@,
            live@,
            force,
            known_sets.deep_view(),
            stale_inactive.deep_view(),
            skill_errors@,
            max_agents as nat,
            max_subagents as nat,
        ));
    }
    out
}

// ---- execution ----

/// The plan indices of the rows carrying (`deact`) or not carrying a
/// deactivation, in plan order.
pub open spec fn indices_where(plan: Seq<PlannedAction>, deact: bool) -> Seq<usize>
    decreases plan.len(),
{
    if plan.len() == 0 {
        Seq::empty()
    } else {
        let prev = indices_where(plan.drop_last(), deact);
        if (plan.last().action == TeamAction::Deactivate) == deact {
            prev.push((plan.len() - 1) as usize)
        } else {
            prev
        }
    }
}

/// Execution order: every deactivation first (a net-zero batch must
/// never show the per-spawn checks a transient over-limit count), then
/// the other rows, each group in plan order.
pub open spec fn execution_order_spec(plan: Seq<PlannedAction>) -> Seq<usize> {
    indices_where(plan, true) + indices_where(plan, false)
}

pub proof fn lemma_indices_where(plan: Seq<PlannedAction>, deact: bool)
    requires plan.len() <= usize::MAX,
    ensures
        forall|k: int| 0 <= k < indices_where(plan, deact).len() ==> {
            let i = #[trigger] indices_where(plan, deact)[k];
            &&& i < plan.len()
            &&& (plan[i as int].action == TeamAction::Deactivate) == deact
        },
        forall|k1: int, k2: int| 0 <= k1 < k2 < indices_where(plan, deact).len() ==>
            #[trigger] indices_where(plan, deact)[k1] < #[trigger] indices_where(plan, deact)[k2],
        forall|i: int| 0 <= i < plan.len() && (plan[i].action == TeamAction::Deactivate) == deact ==>
            #[trigger] indices_where(plan, deact).contains(i as usize),
    decreases plan.len(),
{
    if plan.len() > 0 {
        let prev = plan.drop_last();
        lemma_indices_where(prev, deact);
        let r = indices_where(plan, deact);
        let pr = indices_where(prev, deact);
        let pushed = (plan.last().action == TeamAction::Deactivate) == deact;
        if pushed {
            assert(r == pr.push((plan.len() - 1) as usize));
        } else {
            assert(r == pr);
        }
        assert forall|k: int| 0 <= k < r.len() implies {
            let i = #[trigger] r[k];
            &&& i < plan.len()
            &&& (plan[i as int].action == TeamAction::Deactivate) == deact
        } by {
            if k < pr.len() {
                assert(r[k] == pr[k]);
                assert(pr[k] < prev.len());
                assert(prev[pr[k] as int] == plan[pr[k] as int]);
            } else {
                assert(pushed);
                assert(r[k] == plan.len() - 1);
            }
        }
        assert forall|k1: int, k2: int| 0 <= k1 < k2 < r.len() implies
            #[trigger] r[k1] < #[trigger] r[k2] by {
            if k2 < pr.len() {
                assert(pr[k1] < pr[k2]);
            } else {
                assert(pr[k1] < prev.len());
            }
        }
        assert forall|i: int| 0 <= i < plan.len() && (plan[i].action == TeamAction::Deactivate) == deact implies
            #[trigger] r.contains(i as usize) by {
            if i < plan.len() - 1 {
                assert(prev[i] == plan[i]);
                assert(pr.contains(i as usize));
                let k = choose|k: int| 0 <= k < pr.len() && pr[k] == i as usize;
                assert(r[k] == i as usize);
            } else {
                assert(r[r.len() - 1] == i as usize);
            }
        }
    }
}

/// The order in which execution visits the plan rows.
pub fn execution_order(plan: &Vec<PlannedAction>) -> (order: Vec<usize>)
    ensures order@ == execution_order_spec(plan@),
{
    let mut first: Vec<usize> = Vec::new();
    let mut rest: Vec<usize> = Vec::new();
    let mut i: usize = 0;
    while i < plan.len()
        invariant
            i <= plan.len(),
            first@ == indices_where(plan@.take(i as int), true),
            rest@ == indices_where(plan@.take(i as int), false),
        decreases plan.len() - i,
    {
        proof {
            assert(plan@.take(i + 1).drop_last() =~= plan@.take(i as int));
            assert(plan@.take(i + 1).len() - 1 == i);
        }
        if plan[i].action == TeamAction::Deactivate {
            first.push(i);
        } else {
            rest.push(i);
        }
        i = i + 1;
    }
    proof { assert(plan@.take(i as int) =~= plan@); }
    let mut k: usize = 0;
    let ghost f0 = first@;
    while k < rest.len()
        invariant
            k <= rest.len(),
            first@ == f0 + rest@.take(k as int),
        decreases rest.len() - k,
    {
        first.push(rest[k]);
        proof { assert(f0 + rest@.take(k + 1) =~= (f0 + rest@.take(k as int)).push(rest@[k as int])); }
        k = k + 1;
    }
    proof { assert(rest@.take(k as int) =~= rest@); }
    first
}

/// A row execution actually runs: not a retain, and every row that
/// acts on a live body has its target.
pub open spec fn runs(a: PlannedAction) -> bool {
    match a.action {
        TeamAction::Retain => false,
        TeamAction::Adopt | TeamAction::AlignMetadata | TeamAction::Deactivate => a.target is Some,
        _ => true,
    }
}

/// Whether execution runs this row.
pub fn row_runs(a: &PlannedAction) -> (b: bool)
    ensures b == runs(*a),
{
    match a.action {
        TeamAction::Retain => false,
        TeamAction::Adopt | TeamAction::AlignMetadata | TeamAction::Deactivate => a.target.is_some(),
        _ => true,
    }
}

/// What one executed row's outside work reported.
pub enum RowReport {
    /// A spawn landed under this id.
    Spawned(String),
    /// The parked body came back identity-intact.
    Restored { id: String, notes: Vec<String> },
    /// The parked body was unusable; a fresh replacement was spawned.
    Degraded { id: String, notes: Vec<String> },
    /// An adopt, align or deactivate row landed, with its notes.
    Landed(Vec<String>),
    /// The action failed with this detail; the batch stops.
    Failed(String),
}

/// The report shape each row produces: a restore that lands
/// identity-intact lands under the row's lock id.
pub open spec fn report_fits(a: PlannedAction, r: RowReport) -> bool {
    let action = a.action;
    match r {
        RowReport::Spawned(_) => action == TeamAction::Spawn,
        RowReport::Restored { id, .. } => action == TeamAction::Restore
            && (a.target matches Some(t) && id@ == t@),
        RowReport::Degraded { .. } => action == TeamAction::Restore,
        RowReport::Landed(_) => action == TeamAction::Adopt || action == TeamAction::AlignMetadata
            || action == TeamAction::Deactivate,
        RowReport::Failed(_) => true,
    }
}

/// The value of a result row.
pub ghost struct ResultView {
    pub role: Seq<char>,
    pub action: TeamAction,
    pub agent_id: Option<Seq<char>>,
    pub outcome: TeamRowOutcome,
    pub detail: Seq<char>,
    pub notes: Seq<Seq<char>>,
}

pub open spec fn result_view(r: TeamActionResult) -> ResultView {
    ResultView {
        role: r.role@,
        action: r.action,
        agent_id: opt_view(r.agent_id),
        outcome: r.outcome,
        detail: r.detail@,
        notes: r.notes.deep_view(),
    }
}

/// The result row, the binding (if any) and whether the batch stops,
/// for one executed row and its report.
pub open spec fn outcome_spec(a: PlannedAction, r: RowReport) -> (ResultView, Option<Seq<char>>, bool) {
    let tgt = opt_view(a.target);
    let mk = |id: Option<Seq<char>>, outcome: TeamRowOutcome, detail: Seq<char>, notes: Seq<Seq<char>>|
        ResultView { role: a.role@, action: a.action, agent_id: id, outcome, detail, notes };
    match r {
        RowReport::Failed(detail) => {
            let id = if a.action == TeamAction::Spawn || a.action == TeamAction::Restore { None } else { tgt };
            (mk(id, TeamRowOutcome::Failed, detail@, a.notes.deep_view()), None, true)
        },
        RowReport::Spawned(id) =>
            (mk(Some(id@), TeamRowOutcome::Applied, "spawned agent "@ + id@, a.notes.deep_view()), Some(id@), false),
        RowReport::Restored { id, notes } =>
            (mk(Some(id@), TeamRowOutcome::Applied, "restored agent "@ + id@ + " identity-intact"@,
                a.notes.deep_view() + notes.deep_view()), Some(id@), false),
        RowReport::Degraded { id, notes } =>
            (mk(Some(id@), TeamRowOutcome::Applied, "restore degraded into a fresh spawn: agent "@ + id@,
                a.notes.deep_view() + notes.deep_view()), Some(id@), false),
        RowReport::Landed(notes) => {
            let id = tgt.unwrap();
            let all = a.notes.deep_view() + notes.deep_view();
            if a.action == TeamAction::Adopt {
                let detail = if align_empty(a.align@) {
                    "adopted live agent "@ + id
                } else {
                    "adopted live agent "@ + id + "; metadata aligned"@
                };
                (mk(tgt, TeamRowOutcome::Applied, detail, all), Some(id), false)
            } else if a.action == TeamAction::AlignMetadata {
                (mk(tgt, TeamRowOutcome::Applied, "metadata aligned to the declaration"@, all), None, false)
            } else {
                (mk(tgt, TeamRowOutcome::Applied, "deactivated agent "@ + id + " into the inactive area"@, all),
                    Some(id), false)
            }
        },
    }
}

fn join_notes(a: &Vec<String>, b: &Vec<String>) -> (r: Vec<String>)
    ensures r.deep_view() == a.deep_view() + b.deep_view(),
{
    let mut out = copy_strings(a);
    let mut i: usize = 0;
    while i < b.len()
        invariant
            i <= b.len(),
            out.deep_view() == a.deep_view() + b.deep_view().take(i as int),
        decreases b.len() - i,
    {
        let ghost pre = out.deep_view();
        out.push(b[i].clone());
        proof {
            assert(out.deep_view() =~= pre.push(b.deep_view()[i as int]));
            assert(a.deep_view() + b.deep_view().take(i + 1) =~= (a.deep_view() + b.deep_view().take(i as int)).push(b.deep_view()[i as int]));
        }
        i = i + 1;
    }
    proof { assert(b.deep_view().take(i as int) =~= b.deep_view()); }
    out
}

/// Land one executed row: append its result row, rebind the mapping
/// where the row binds a role, and say whether the batch stops (any
/// failure stops it, fail-fast).
pub fn record_outcome(
    mapping: &mut Vec<TeamLockEntry>,
    results: &mut Vec<TeamActionResult>,
    a: &PlannedAction,
    report: RowReport,
    stamped: &String,
) -> (stop: bool)
    requires
        runs(*a),
        report_fits(*a, report),
    ensures
        ({
            let o = outcome_spec(*a, report);
            &&& final(results)@.len() == old(results)@.len() + 1
            &&& forall|i: int| 0 <= i < old(results)@.len() ==> final(results)@[i] == old(results)@[i]
            &&& result_view(final(results)@.last()) == o.0
            &&& mapping_view(final(mapping)@) == match o.1 {
                Some(id) => upsert_spec(mapping_view(old(mapping)@), a.role@, id, stamped@),
                None => mapping_view(old(mapping)@),
            }
            &&& stop == o.2
        }),
{
    let ghost o = outcome_spec(*a, report);
    match report {
        RowReport::Failed(detail) => {
            let id = if a.action == TeamAction::Spawn || a.action == TeamAction::Restore {
                None
            } else {
                copy_opt_string(&a.target)
            };
            results.push(TeamActionResult {
                role: a.role.clone(),
                action: a.action,
                agent_id: id,
                outcome: TeamRowOutcome::Failed,
                detail,
                notes: copy_strings(&a.notes),
            });
            true
        },
        RowReport::Spawned(id) => {
            upsert_mapping(mapping, &a.role, &id, stamped);
            let detail = String::from_str("spawned agent ").concat(id.as_str());
            results.push(TeamActionResult {
                role: a.role.clone(),
                action: a.action,
                agent_id: Some(id),
                outcome: TeamRowOutcome::Applied,
                detail,
                notes: copy_strings(&a.notes),
            });
            false
        },
        RowReport::Restored { id, notes } => {
            upsert_mapping(mapping, &a.role, &id, stamped);
            let detail = String::from_str("restored agent ").concat(id.as_str()).concat(" identity-intact");
            results.push(TeamActionResult {
                role: a.role.clone(),
                action: a.action,
                agent_id: Some(id),
                outcome: TeamRowOutcome::Applied,
                detail,
                notes: join_notes(&a.notes, &notes),
            });
            false
        },
        RowReport::Degraded { id, notes } => {
            upsert_mapping(mapping, &a.role, &id, stamped);
            let detail = String::from_str("restore degraded into a fresh spawn: agent ").concat(id.as_str());
            results.push(TeamActionResult {
                role: a.role.clone(),
                action: a.action,
                agent_id: Some(id),
                outcome: TeamRowOutcome::Applied,
                detail,
                notes: join_notes(&a.notes, &notes),
            });
            false
        },
        RowReport::Landed(notes) => {
            let id = match &a.target {
                Some(t) => t.clone(),
                None => String::new(),
            };
            let all = join_notes(&a.notes, &notes);
            if a.action == TeamAction::Adopt {
                upsert_mapping(mapping, &a.role, &id, stamped);
                let detail = if a.align.is_empty() {
                    String::from_str("adopted live agent ").concat(id.as_str())
                } else {
                    String::from_str("adopted live agent ").concat(id.as_str()).concat("; metadata aligned")
                };
                results.push(TeamActionResult {
                    role: a.role.clone(),
                    action: a.action,
                    agent_id: Some(id),
                    outcome: TeamRowOutcome::Applied,
                    detail,
                    notes: all,
                });
            } else if a.action == TeamAction::AlignMetadata {
                results.push(TeamActionResult {
                    role: a.role.clone(),
                    action: a.action,
                    agent_id: Some(id),
                    outcome: TeamRowOutcome::Applied,
                    detail: String::from_str("metadata aligned to the declaration"),
                    notes: all,
                });
            } else {
                upsert_mapping(mapping, &a.role, &id, stamped);
                let detail = String::from_str("deactivated agent ").concat(id.as_str()).concat(" into the inactive area");
                results.push(TeamActionResult {
                    role: a.role.clone(),
                    action: a.action,
                    agent_id: Some(id),
                    outcome: TeamRowOutcome::Applied,
                    detail,
                    notes: all,
                });
            }
            false
        },
    }
}

// ---- authorization and the registry snapshot ----

/// Converge is the operator's action, or the root's own (the
/// declaration author); any other identity is refused (`403`).
pub fn authorize_converge(registry: &AgentRegistry, identity: &Identity) -> (r: Result<(), ApiError>)
    requires registry.wf(),
    ensures
        match identity {
            Identity::Operator => r is Ok,
            Identity::Agent { id } => {
                let l = registry.listing();
                let f = first_root(l);
                &&& (r is Ok) <==> (f >= 0 && l[f].0@ == id@)
                &&& r is Err ==> r->Err_0.status == 403
                    && r->Err_0.message@ == "converge is reserved for the operator or the root agent"@
            },
        },
{
    match identity {
        Identity::Operator => Ok(()),
        Identity::Agent { id } => {
            let ok = match registry.root_agent() {
                Some((root_id, _)) => *root_id == *id,
                None => false,
            };
            if ok {
                Ok(())
            } else {
                Err(ApiError::forbidden(String::from_str("converge is reserved for the operator or the root agent")))
            }
        },
    }
}

/// Mid-round: any state but idle or parked.
pub open spec fn busy_state(s: AgentState) -> bool {
    !(s == AgentState::Idle || s == AgentState::Parked)
}

/// `b` is the snapshot of registry entry `(id, e)`.
pub open spec fn body_matches(b: LiveBody, id: Seq<char>, e: RegistryEntry) -> bool {
    let c = e.ident().config;
    &&& b.id@ == id
    &&& b.role@ == c.role@
    &&& b.workspace_root@ == c.workspace_root@
    &&& b.description@ == c.description@
    &&& opt_view(b.profile_set) == opt_view(c.profile_set)
    &&& b.permissions_class == c.permissions_class
    &&& b.busy == (match e { RegistryEntry::Live(x) => busy_state(x.agent.state), RegistryEntry::Faulted(_) => false })
    &&& b.children == e.kids().len()
    &&& b.faulted == (e is Faulted)
}

fn body_from(id: &String, e: &RegistryEntry) -> (b: LiveBody)
    ensures body_matches(b, id@, *e),
{
    let c = &e.identity().config;
    let busy = match e.as_live() {
        Some(x) => !(x.agent.state == AgentState::Idle || x.agent.state == AgentState::Parked),
        None => false,
    };
    let kids = e.subagent_ids();
    LiveBody {
        id: id.clone(),
        role: c.role.clone(),
        workspace_root: c.workspace_root.clone(),
        description: c.description.clone(),
        profile_set: copy_opt_string(&c.profile_set),
        permissions_class: c.permissions_class,
        busy,
        children: kids.len(),
        faulted: e.as_live().is_none(),
    }
}

/// The registry snapshot converge plans against, taken from one
/// consistent view: the root body (the first root, if any) and every
/// other entry, live and faulted, in registry order.
pub fn snapshot_live(registry: &AgentRegistry) -> (r: (Option<LiveBody>, Vec<LiveBody>))
    requires registry.wf(),
    ensures
        ({
            let l = registry.listing();
            let f = first_root(l);
            &&& f < 0 ==> r.0 is None && r.1@.len() == l.len()
                && forall|k: int| 0 <= k < l.len() ==> body_matches(#[trigger] r.1@[k], l[k].0@, l[k].1)
            &&& f >= 0 ==> (r.0 matches Some(b) && body_matches(b, l[f].0@, l[f].1))
            &&& f >= 0 ==> r.1@.len() == l.len() - 1
            &&& f >= 0 ==> forall|k: int| 0 <= k < l.len() - 1 ==> {
                    let j = if k < f { k } else { k + 1 };
                    body_matches(#[trigger] r.1@[k], l[j].0@, l[j].1)
                }
        }),
{
    let entries = registry.iter();
    let ghost l = registry.listing();
    proof { lemma_first_root(l); }
    let root_idx: Option<usize> = {
        let mut i: usize = 0;
        let mut found: Option<usize> = None;
        while i < entries.len()
            invariant_except_break
                found is None,
            invariant
                entries@ == l,
                i <= entries.len(),
                -1 <= first_root(l) < l.len(),
                first_root(l) >= 0 ==> l[first_root(l)].1.is_root(),
                forall|j: int| 0 <= j < l.len() && (first_root(l) < 0 || j < first_root(l)) ==> !(#[trigger] l[j]).1.is_root(),
                forall|j: int| 0 <= j < i ==> !(#[trigger] l[j]).1.is_root(),
            ensures
                found matches Some(x) ==> x == first_root(l),
                found is None ==> first_root(l) < 0,
            decreases entries.len() - i,
        {
            if entries[i].1.identity().config.is_root() {
                proof {
                    if first_root(l) >= 0 && first_root(l) < i {
                        assert(!l[first_root(l)].1.is_root());
                    }
                    assert(l[i as int].1.is_root());
                }
                found = Some(i);
                break;
            }
            i = i + 1;
        }
        found
    };
    let mut root: Option<LiveBody> = None;
    let mut others: Vec<LiveBody> = Vec::new();
    let mut i: usize = 0;
    while i < entries.len()
        invariant
            entries@ == l,
            i <= entries.len(),
            root_idx matches Some(x) ==> x == first_root(l) && x < l.len(),
            root_idx is None ==> first_root(l) < 0,
            root_idx matches Some(x) ==> (if i > x { (root matches Some(b) && body_matches(b, l[x as int].0@, l[x as int].1)) } else { root is None }),
            root_idx is None ==> root is None,
            others@.len() == (match root_idx { Some(x) => if i > x { i - 1 } else { i as int }, None => i as int }),
            forall|k: int| 0 <= k < others@.len() ==> {
                let j = match root_idx { Some(x) => if k < x { k } else { k + 1 }, None => k };
                body_matches(#[trigger] others@[k], l[j].0@, l[j].1)
            },
        decreases entries.len() - i,
    {
        let body = body_from(&entries[i].0, &entries[i].1);
        let is_root = match root_idx {
            Some(x) => x == i,
            None => false,
        };
        if is_root {
            root = Some(body);
        } else {
            others.push(body);
        }
        i = i + 1;
    }
    (root, others)
}

// ---- per-row checks at execution time ----

pub open spec fn msg_vanished(id: Seq<char>) -> Seq<char> {
    "agent "@ + id + " vanished in the plan→execute window; batch stopped"@
}

pub open spec fn msg_turned_busy(id: Seq<char>) -> Seq<char> {
    "agent "@ + id + " turned busy in the plan→execute window; batch stopped (re-run, or pass force)"@
}

pub open spec fn msg_gained_children(id: Seq<char>) -> Seq<char> {
    "agent "@ + id + " gained live subagents in the plan→execute window; batch stopped"@
}

pub open spec fn note_forced() -> Seq<char> {
    "force escape: the busy target was interrupted before teardown"@
}

/// The re-read before parking a body: it must still exist, be idle
/// unless forced (a forced busy target is noted), and have no children.
pub open spec fn deactivation_spec(e: Option<RegistryEntry>, id: Seq<char>, force: bool) -> Result<Seq<Seq<char>>, Seq<char>> {
    match e {
        None => Err(msg_vanished(id)),
        Some(x) => {
            let busy = match x { RegistryEntry::Live(l) => busy_state(l.agent.state), RegistryEntry::Faulted(_) => false };
            if busy && !force {
                Err(msg_turned_busy(id))
            } else if x.kids().len() > 0 {
                Err(msg_gained_children(id))
            } else if busy {
                Ok(seq![note_forced()])
            } else {
                Ok(Seq::empty())
            }
        },
    }
}

/// Re-check a deactivation target before it is unregistered.
pub fn deactivation_check(entry: Option<&RegistryEntry>, id: &String, force: bool) -> (r: Result<Vec<String>, String>)
    ensures
        match deactivation_spec(match entry { Some(e) => Some(*e), None => None }, id@, force) {
            Ok(notes) => r matches Ok(v) && v.deep_view() == notes,
            Err(m) => r matches Err(x) && x@ == m,
        },
{
    match entry {
        None => Err(String::from_str("agent ").concat(id.as_str()).concat(" vanished in the plan→execute window; batch stopped")),
        Some(e) => {
            let busy = match e.as_live() {
                Some(x) => !(x.agent.state == AgentState::Idle || x.agent.state == AgentState::Parked),
                None => false,
            };
            if busy && !force {
                return Err(String::from_str("agent ").concat(id.as_str()).concat(
                    " turned busy in the plan→execute window; batch stopped (re-run, or pass force)",
                ));
            }
            if e.subagent_ids().len() > 0 {
                return Err(String::from_str("agent ").concat(id.as_str()).concat(
                    " gained live subagents in the plan→execute window; batch stopped",
                ));
            }
            let mut notes: Vec<String> = Vec::new();
            if busy {
                notes.push(String::from_str("force escape: the busy target was interrupted before teardown"));
                proof { assert(notes.deep_view() =~= seq![note_forced()]); }
            } else {
                proof { assert(notes.deep_view() =~= Seq::<Seq<char>>::empty()); }
            }
            Ok(notes)
        },
    }
}

/// The first registry entry (in order) whose role is `role`.
pub open spec fn role_holder(l: Seq<(String, RegistryEntry)>, role: Seq<char>) -> Option<Seq<char>>
    decreases l.len(),
{
    if l.len() == 0 {
        None
    } else {
        match role_holder(l.drop_last(), role) {
            Some(h) => Some(h),
            None => if l.last().1.ident().config.role@ == role { Some(l.last().0@) } else { None },
        }
    }
}

fn find_role_holder<'a>(registry: &'a AgentRegistry, role: &String) -> (r: Option<&'a String>)
    ensures
        match role_holder(registry.listing(), role@) {
            Some(h) => r matches Some(x) && x@ == h,
            None => r is None,
        },
{
    let entries = registry.iter();
    let ghost l = registry.listing();
    let mut i: usize = 0;
    while i < entries.len()
        invariant
            entries@ == l,
            l == registry.listing(),
            i <= entries.len(),
            role_holder(l.take(i as int), role@) is None,
        decreases entries.len() - i,
    {
        proof { assert(l.take(i + 1).drop_last() =~= l.take(i as int)); }
        if entries[i].1.identity().config.role == *role {
            proof { lemma_holder_prefix(l, role@, i as int + 1); }
            return Some(&entries[i].0);
        }
        i = i + 1;
    }
    proof { assert(l.take(i as int) =~= l); }
    None
}

proof fn lemma_holder_prefix(l: Seq<(String, RegistryEntry)>, role: Seq<char>, k: int)
    requires
        0 <= k <= l.len(),
        role_holder(l.take(k), role) is Some,
    ensures
        role_holder(l, role) == role_holder(l.take(k), role),
    decreases l.len() - k,
{
    if k < l.len() {
        assert(l.take(k + 1).drop_last() =~= l.take(k));
        lemma_holder_prefix(l, role, k + 1);
    } else {
        assert(l.take(k) =~= l);
    }
}

pub open spec fn msg_came_alive(id: Seq<char>) -> Seq<char> {
    "agent "@ + id + " came alive in the plan→execute window; batch stopped, nothing applied for this row"@
}

pub open spec fn msg_role_taken(role: Seq<char>, holder: Seq<char>) -> Seq<char> {
    "role "@ + debug_quote(role) + " is now held by agent "@ + holder + "; batch stopped"@
}

/// The re-read before a restore: the row has a lock id, the id is still
/// absent from the registry, and the role is still free.
pub open spec fn restore_precheck_spec(a: PlannedAction, m: Map<Seq<char>, RegistryEntry>, l: Seq<(String, RegistryEntry)>) -> Result<Seq<char>, Seq<char>> {
    match a.target {
        None => Err("restore row without a lock id"@),
        Some(id) => if m.contains_key(id@) {
            Err(msg_came_alive(id@))
        } else {
            match role_holder(l, a.role@) {
                Some(h) => Err(msg_role_taken(a.role@, h)),
                None => Ok(id@),
            }
        },
    }
}

/// Re-check a restore row before its body is reactivated; on success,
/// the id to restore.
pub fn restore_precheck(registry: &AgentRegistry, a: &PlannedAction) -> (r: Result<String, String>)
    requires registry.wf(),
    ensures
        match restore_precheck_spec(*a, registry.map(), registry.listing()) {
            Ok(id) => r matches Ok(x) && x@ == id,
            Err(m) => r matches Err(x) && x@ == m,
        },
{
    let id = match &a.target {
        Some(t) => t,
        None => return Err(String::from_str("restore row without a lock id")),
    };
    if registry.contains_key(id) {
        return Err(String::from_str("agent ").concat(id.as_str()).concat(
            " came alive in the plan→execute window; batch stopped, nothing applied for this row",
        ));
    }
    match find_role_holder(registry, &a.role) {
        Some(h) => {
            let q = debug_quoted(a.role.as_str());
            Err(String::from_str("role ").concat(q.as_str()).concat(" is now held by agent ").concat(h.as_str()).concat(
                "; batch stopped",
            ))
        },
        None => Ok(id.clone()),
    }
}

/// The registration re-check of a restored body: the id or the role was
/// taken while the body came up.
pub fn restore_violated(registry: &AgentRegistry, id: &String, role: &String) -> (b: bool)
    requires registry.wf(),
    ensures b == (registry.map().contains_key(id@) || role_holder(registry.listing(), role@) is Some),
{
    registry.contains_key(id) || find_role_holder(registry, role).is_some()
}

/// The metadata of a parked body that restore may align.
#[derive(Clone, Debug)]
pub struct ParkedMeta {
    pub description: String,
    pub profile_set: Option<String>,
    pub permissions_class: PermissionClass,
}


/// The notes of a same-round alignment on a parked body.
pub open spec fn parked_notes(d: RoleDeclView, m: ParkedMeta) -> Seq<Seq<char>> {
    let al = align_on(d, m.description@, opt_view(m.profile_set), m.permissions_class);
    (if al.description is Some { seq!["aligned description"@] } else { Seq::empty() })
        + (if al.profile_set is Some { seq!["aligned profile_set"@] } else { Seq::empty() })
        + (if al.class is Some {
            seq!["downgraded permission_class"@]
        } else {
            match d.permission_class {
                Some(w) => match parse_class_spec(w) {
                    Some(c) => if class_rank(c) > class_rank(m.permissions_class) {
                        seq!["cannot auto-align permission_class (converge never raises permissions)"@]
                    } else {
                        Seq::empty()
                    },
                    None => Seq::empty(),
                },
                None => Seq::empty(),
            }
        })
        + (if d.prompt is Some { seq!["declaration prompt is not injected on restore (identity-intact)"@] } else { Seq::empty() })
        + (if d.skills.len() > 0 { seq!["declared skills apply at spawn; restored context unchanged"@] } else { Seq::empty() })
}

/// Align a parked body's metadata to its declaration in the same round
/// as the restore: the items to write (never a class raise), the
/// updated metadata, and the notes.
pub fn align_parked(declared: &RoleDeclaration, meta: &mut ParkedMeta) -> (r: (AlignItems, Vec<String>))
    ensures
        ({
            let al = align_on(declared@, old(meta).description@, opt_view(old(meta).profile_set), old(meta).permissions_class);
            &&& r.0@ == al
            &&& final(meta).description@ == (match al.description { Some(x) => x, None => old(meta).description@ })
            &&& opt_view(final(meta).profile_set) == (match al.profile_set { Some(x) => Some(x), None => opt_view(old(meta).profile_set) })
            &&& final(meta).permissions_class == (match al.class { Some(c) => c, None => old(meta).permissions_class })
            &&& r.1.deep_view() == parked_notes(declared@, *old(meta))
        }),
{
    let ghost m0 = *meta;
    let class0 = meta.permissions_class;
    let body = LiveBody {
        id: String::new(),
        role: String::new(),
        workspace_root: String::new(),
        description: meta.description.clone(),
        profile_set: copy_opt_string(&meta.profile_set),
        permissions_class: meta.permissions_class,
        busy: false,
        children: 0,
        faulted: false,
    };
    let (items, _) = alignment_of(declared, &body);
    let mut notes: Vec<String> = Vec::new();
    match &items.description {
        Some(d) => {
            meta.description = d.clone();
            notes.push(String::from_str("aligned description"));
        },
        None => {},
    }
    match &items.profile_set {
        Some(p) => {
            meta.profile_set = Some(p.clone());
            notes.push(String::from_str("aligned profile_set"));
        },
        None => {},
    }
    let ghost n2 = notes.deep_view();
    match items.permissions_class {
        Some(c) => {
            meta.permissions_class = c;
            notes.push(String::from_str("downgraded permission_class"));
        },
        None => {
            match &declared.permission_class {
                Some(w) => match parse_class(w.as_str()) {
                    Some(c) => {
                        if c.exceeds(&class0) {
                            notes.push(String::from_str(
                                "cannot auto-align permission_class (converge never raises permissions)",
                            ));
                        }
                    },
                    None => {},
                },
                None => {},
            }
        },
    }
    if declared.prompt.is_some() {
        notes.push(String::from_str("declaration prompt is not injected on restore (identity-intact)"));
    }
    if declared.skills.len() > 0 {
        notes.push(String::from_str("declared skills apply at spawn; restored context unchanged"));
    }
    proof {
        assert(notes.deep_view() =~= parked_notes(declared@, m0));
    }
    (items, notes)
}

} // verus!
