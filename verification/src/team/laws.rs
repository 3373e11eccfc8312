//! What holds of the status table, the converge plan and execution
//! across all inputs.
use vstd::prelude::*;
use crate::config::class_rank;
use crate::order::lemma_sorted_same_members;
use crate::team::{RoleDeclaration, TeamAction, TeamRejectionKind, TeamRoleStatus};
use crate::team::converge::{
    LiveBody, PlannedAction, bodies_of, converge_plan_table, drift_pool, entries_of, execution_order_spec,
    first_binding, indices_where, lemma_bodies_ids, lemma_first_binding, lemma_indices_where, plan_roles, plan_row_is,
    upsert_spec, ambiguity_rejs, root_rejs, duplicate_rejs, deact_rejs, deact_row_rejs, spawn_rejs, spawn_rows_rejs,
    spawn_row_rejs, skill_rejs, capacity_rejs, preflight_spec,
};
use crate::team::status::{
    LockPair, LiveEntry, decl_view, parse_pieces, pair_roles, piece_verdict, row_roles, status_table, uuid_format,
    all_ws, edge_ws, undeclared, declared_names, lock_for,
};

verus! {

/// The table an operator reads and the plan converge executes cannot
/// drift apart: for the status rows [`compare_team`] gives over the live
/// bodies (the root added to the drift pool), the plan has one row per
/// status row, in the same order, with the same role, the same verdict
/// and the same declaration.
///
/// [`compare_team`]: crate::team::status::compare_team
pub proof fn law_plan_follows_status(
    roles: Seq<RoleDeclaration>,
    lock: Seq<LockPair>,
    root: Option<LiveBody>,
    live: Seq<LiveBody>,
    rows: Seq<TeamRoleStatus>,
    plan: Seq<PlannedAction>,
)
    requires
        status_table(roles, lock, entries_of(live), drift_pool(root, live), rows),
        converge_plan_table(roles, lock, root, live, plan),
    ensures
        plan.len() == rows.len(),
        forall|i: int| 0 <= i < plan.len() ==> (#[trigger] plan[i]).role@ == rows[i].role@
            && plan[i].disposition == rows[i].disposition
            && decl_view(plan[i].declared) == decl_view(rows[i].declaration),
{
    let nd = roles.len() as int;
    assert forall|x: Seq<char>| plan_roles(plan).skip(nd).contains(x) <==> row_roles(rows).skip(nd).contains(x) by {
        assert(plan_roles(plan).skip(nd).contains(x) <==> undeclared(x, roles, lock, entries_of(live)));
        assert(row_roles(rows).skip(nd).contains(x) <==> undeclared(x, roles, lock, entries_of(live)));
    }
    lemma_sorted_same_members(plan_roles(plan).skip(nd), row_roles(rows).skip(nd));
    assert(plan_roles(plan).skip(nd).len() == row_roles(rows).skip(nd).len());
    assert forall|i: int| 0 <= i < plan.len() implies (#[trigger] plan[i]).role@ == rows[i].role@
        && plan[i].disposition == rows[i].disposition
        && decl_view(plan[i].declared) == decl_view(rows[i].declaration) by {
        if i < nd {
            let d = roles[i];
            lemma_bodies_ids(live, d.name@);
            assert(bodies_of(live, d.name@).map_values(|b: LiveBody| b.id@).len() == bodies_of(live, d.name@).len());
        } else {
            assert(plan_roles(plan).skip(nd)[i - nd] == row_roles(rows).skip(nd)[i - nd]);
            assert(plan[i].role@ == rows[i].role@);
            lemma_bodies_ids(live, rows[i].role@);
            assert(bodies_of(live, rows[i].role@).map_values(|b: LiveBody| b.id@).len()
                == bodies_of(live, rows[i].role@).len());
        }
    }
}

/// Converge never raises a permission class: any class a plan row
/// aligns is strictly below the class of the live body it targets.
pub proof fn law_never_raises_class(
    roles: Seq<RoleDeclaration>,
    lock: Seq<LockPair>,
    root: Option<LiveBody>,
    live: Seq<LiveBody>,
    plan: Seq<PlannedAction>,
)
    requires
        converge_plan_table(roles, lock, root, live, plan),
    ensures
        forall|i: int| 0 <= i < plan.len() && (#[trigger] plan[i].align@).class is Some ==> {
            let bodies = bodies_of(live, plan[i].role@);
            &&& bodies.len() > 0
            &&& class_rank(plan[i].align@.class.unwrap()) < class_rank(bodies[0].permissions_class)
        },
{
    let nd = roles.len() as int;
    let pool = drift_pool(root, live);
    assert forall|i: int| 0 <= i < plan.len() && (#[trigger] plan[i].align@).class is Some implies {
        let bodies = bodies_of(live, plan[i].role@);
        &&& bodies.len() > 0
        &&& class_rank(plan[i].align@.class.unwrap()) < class_rank(bodies[0].permissions_class)
    } by {
        if i < nd {
            let d = roles[i];
            assert(plan_row_is(plan[i], d.name@, Some(d@), lock_for(lock, d.name@), live, pool));
        } else {
            let name = plan[i].role@;
            assert(plan_row_is(plan[i], name, None, lock_for(lock, name), live, pool));
        }
    }
}

/// Every role the declaration, the lock or the live set names has a row
/// in the status table.
pub proof fn law_every_role_has_a_row(
    roles: Seq<RoleDeclaration>,
    lock: Seq<LockPair>,
    live: Seq<LiveEntry>,
    all_live: Seq<LiveEntry>,
    rows: Seq<TeamRoleStatus>,
)
    requires
        status_table(roles, lock, live, all_live, rows),
    ensures
        forall|i: int| 0 <= i < roles.len() ==> row_roles(rows).contains(#[trigger] roles[i].name@),
        forall|i: int| 0 <= i < lock.len() ==> row_roles(rows).contains(#[trigger] lock[i].role@),
        forall|i: int| 0 <= i < live.len() ==> row_roles(rows).contains(#[trigger] live[i].role@),
{
    let nd = roles.len() as int;
    let names = declared_names(roles);
    assert forall|i: int| 0 <= i < roles.len() implies row_roles(rows).contains(#[trigger] roles[i].name@) by {
        assert(row_roles(rows)[i] == roles[i].name@);
    }
    assert forall|x: Seq<char>| names.contains(x) || row_roles(rows).skip(nd).contains(x) implies
        row_roles(rows).contains(x) by {
        if names.contains(x) {
            let i = choose|i: int| 0 <= i < names.len() && names[i] == x;
            assert(row_roles(rows)[i] == x);
        } else {
            let k = choose|k: int| 0 <= k < row_roles(rows).skip(nd).len() && row_roles(rows).skip(nd)[k] == x;
            assert(row_roles(rows)[k + nd] == x);
        }
    }
    assert forall|i: int| 0 <= i < lock.len() implies row_roles(rows).contains(#[trigger] lock[i].role@) by {
        let x = lock[i].role@;
        if !names.contains(x) {
            assert(undeclared(x, roles, lock, live));
            assert(row_roles(rows).skip(nd).contains(x));
        }
    }
    assert forall|i: int| 0 <= i < live.len() implies row_roles(rows).contains(#[trigger] live[i].role@) by {
        let x = live[i].role@;
        if !names.contains(x) {
            assert(undeclared(x, roles, lock, live));
            assert(row_roles(rows).skip(nd).contains(x));
        }
    }
}

/// Execution visits every plan row exactly once, and every
/// deactivation before any other row.
pub proof fn law_deactivations_run_first(plan: Seq<PlannedAction>)
    requires
        plan.len() <= usize::MAX,
    ensures
        ({
            let o = execution_order_spec(plan);
            &&& forall|k: int| 0 <= k < o.len() ==> #[trigger] o[k] < plan.len()
            &&& o.no_duplicates()
            &&& forall|i: usize| i < plan.len() ==> #[trigger] o.contains(i)
            &&& forall|k1: int, k2: int| #![trigger o[k1], o[k2]] 0 <= k1 < k2 < o.len()
                && plan[o[k2] as int].action == TeamAction::Deactivate
                ==> plan[o[k1] as int].action == TeamAction::Deactivate && o[k1] < o[k2]
        }),
{
    lemma_indices_where(plan, true);
    lemma_indices_where(plan, false);
    let a = indices_where(plan, true);
    let b = indices_where(plan, false);
    let o = execution_order_spec(plan);
    assert(o == a + b);
    assert forall|k: int| 0 <= k < o.len() implies #[trigger] o[k] < plan.len() by {
        if k < a.len() {
            assert(o[k] == a[k]);
        } else {
            assert(o[k] == b[k - a.len()]);
        }
    }
    assert forall|k1: int, k2: int| 0 <= k1 < o.len() && 0 <= k2 < o.len() && k1 != k2 implies o[k1] != o[k2] by {
        if k1 < a.len() && k2 < a.len() {
            if k1 < k2 { assert(a[k1] < a[k2]); } else { assert(a[k2] < a[k1]); }
        } else if k1 >= a.len() && k2 >= a.len() {
            if k1 < k2 { assert(b[k1 - a.len()] < b[k2 - a.len()]); } else { assert(b[k2 - a.len()] < b[k1 - a.len()]); }
        } else if k1 < a.len() {
            assert(o[k1] == a[k1]);
            assert(o[k2] == b[k2 - a.len()]);
        } else {
            assert(o[k2] == a[k2]);
            assert(o[k1] == b[k1 - a.len()]);
        }
    }
    assert forall|i: usize| i < plan.len() implies #[trigger] o.contains(i) by {
        if plan[i as int].action == TeamAction::Deactivate {
            assert(a.contains(i as usize));
            let k = choose|k: int| 0 <= k < a.len() && a[k] == i as usize;
            assert(o[k] == i as usize);
        } else {
            assert(b.contains(i as usize));
            let k = choose|k: int| 0 <= k < b.len() && b[k] == i as usize;
            assert(o[k + a.len()] == i as usize);
        }
    }
    assert forall|k1: int, k2: int| #![trigger o[k1], o[k2]] 0 <= k1 < k2 < o.len()
        && plan[o[k2] as int].action == TeamAction::Deactivate implies
        plan[o[k1] as int].action == TeamAction::Deactivate && o[k1] < o[k2] by {
        if k2 >= a.len() {
            assert(o[k2] == b[k2 - a.len()]);
        }
        assert(o[k2] == a[k2]);
        assert(o[k1] == a[k1]);
        assert(a[k1] < a[k2]);
    }
}

/// An upsert binds the role: the first binding of the role afterwards is
/// the new record, which replaced the old first binding in place or was
/// appended; every other binding is untouched.
pub proof fn law_upsert_binds(
    m: Seq<(Seq<char>, Seq<char>, Seq<char>)>,
    role: Seq<char>,
    id: Seq<char>,
    stamped: Seq<char>,
)
    ensures
        ({
            let u = upsert_spec(m, role, id, stamped);
            let f = first_binding(u, role);
            &&& f >= 0 && u[f] == (role, id, stamped)
            &&& u.len() == if first_binding(m, role) >= 0 { m.len() } else { m.len() + 1 }
            &&& forall|j: int| 0 <= j < m.len() && j != f ==> #[trigger] u[j] == m[j]
        }),
{
    lemma_first_binding(m, role);
    let u = upsert_spec(m, role, id, stamped);
    lemma_first_binding(u, role);
    let f0 = first_binding(m, role);
    if f0 >= 0 {
        if first_binding(u, role) != f0 {
            assert(u[f0].0 == role);
        }
    } else {
        if first_binding(u, role) != m.len() {
            assert(u[m.len() as int].0 == role);
        }
    }
}

/// A lock parameter that parses holds one record per role, each role
/// non-blank and unpadded, each id a UUID.
pub proof fn law_parsed_lock_is_clean(pieces: Seq<Seq<char>>)
    ensures
        parse_pieces(pieces) matches Ok(pairs) ==> {
            &&& pair_roles(pairs).no_duplicates()
            &&& forall|i: int| 0 <= i < pairs.len() ==> {
                &&& !all_ws(#[trigger] pairs[i].0)
                &&& !edge_ws(pairs[i].0)
                &&& uuid_format(pairs[i].1)
            }
        },
    decreases pieces.len(),
{
    if pieces.len() > 0 {
        law_parsed_lock_is_clean(pieces.drop_last());
        if let Ok(seen) = parse_pieces(pieces.drop_last()) {
            if let Ok(pair) = piece_verdict(seen, pieces.last()) {
                let pairs = seen.push(pair);
                assert(pair_roles(pairs) =~= pair_roles(seen).push(pair.0));
                assert forall|a: int, b: int| 0 <= a < pair_roles(pairs).len() && 0 <= b < pair_roles(pairs).len() && a != b
                    implies pair_roles(pairs)[a] != pair_roles(pairs)[b] by {
                    if a == seen.len() {
                        assert(pair_roles(seen)[b] == pair_roles(pairs)[b]);
                    } else if b == seen.len() {
                        assert(pair_roles(seen)[a] == pair_roles(pairs)[a]);
                    }
                }
            }
        }
    }
}

/// Re-running converge after a row landed is a no-op for that row: a
/// declared, managed role whose one live body is the body its lock
/// record names (live under that role, not archived) and already matches
/// the declaration plans as a retain with no target, and its record is
/// kept.
pub proof fn law_in_sync_role_retains(
    roles: Seq<RoleDeclaration>,
    lock: Seq<LockPair>,
    root: Option<LiveBody>,
    live: Seq<LiveBody>,
    plan: Seq<PlannedAction>,
    i: int,
)
    requires
        converge_plan_table(roles, lock, root, live, plan),
        0 <= i < roles.len(),
        !roles[i].unmanaged,
        bodies_of(live, roles[i].name@).len() == 1,
        lock_for(lock, roles[i].name@) matches Some(p)
            && p.id@ == bodies_of(live, roles[i].name@)[0].id@
            && !p.in_archived
            && !crate::team::status::drifts(p, roles[i].name@, drift_pool(root, live)),
        crate::team::converge::align_empty(
            crate::team::converge::align_spec(roles[i]@, bodies_of(live, roles[i].name@)[0])),
    ensures
        plan[i].action == TeamAction::Retain,
        plan[i].target is None,
        !plan[i].discard_record,
{
    let d = roles[i];
    assert(plan_row_is(plan[i], d.name@, Some(d@), lock_for(lock, d.name@), live, drift_pool(root, live)));
    let bodies = bodies_of(live, d.name@);
    assert(bodies[0].id@ == lock_for(lock, d.name@)->Some_0.id@);
}

/// A refusal that `force` does not waive.
pub open spec fn not_busy(r: (TeamRejectionKind, Seq<char>)) -> bool {
    r.0 != TeamRejectionKind::Busy
}

/// `s` without its busy-target refusals, the rest in order.
pub open spec fn waive_busy(s: Seq<(TeamRejectionKind, Seq<char>)>) -> Seq<(TeamRejectionKind, Seq<char>)> {
    s.filter(|r: (TeamRejectionKind, Seq<char>)| not_busy(r))
}

pub open spec fn no_busy(s: Seq<(TeamRejectionKind, Seq<char>)>) -> bool {
    forall|i: int| 0 <= i < s.len() ==> not_busy(#[trigger] s[i])
}

proof fn lemma_waive_push(s: Seq<(TeamRejectionKind, Seq<char>)>, x: (TeamRejectionKind, Seq<char>))
    ensures waive_busy(s.push(x)) == if not_busy(x) { waive_busy(s).push(x) } else { waive_busy(s) },
{
    reveal(Seq::filter);
    assert(s.push(x).drop_last() =~= s);
    assert(s.push(x).last() == x);
}

proof fn lemma_waive_add(a: Seq<(TeamRejectionKind, Seq<char>)>, b: Seq<(TeamRejectionKind, Seq<char>)>)
    ensures waive_busy(a + b) == waive_busy(a) + waive_busy(b),
{
    Seq::filter_distributes_over_add(a, b, |r: (TeamRejectionKind, Seq<char>)| not_busy(r));
}

proof fn lemma_waive_id(s: Seq<(TeamRejectionKind, Seq<char>)>)
    requires no_busy(s),
    ensures waive_busy(s) == s,
    decreases s.len(),
{
    if s.len() == 0 {
        reveal(Seq::filter);
    } else {
        let t = s.drop_last();
        assert(no_busy(t)) by {
            assert forall|i: int| 0 <= i < t.len() implies not_busy(#[trigger] t[i]) by { assert(t[i] == s[i]); }
        }
        lemma_waive_id(t);
        assert(t.push(s.last()) =~= s);
        assert(not_busy(s[s.len() - 1]));
        lemma_waive_push(t, s.last());
    }
}

proof fn lemma_no_busy_add(a: Seq<(TeamRejectionKind, Seq<char>)>, b: Seq<(TeamRejectionKind, Seq<char>)>)
    requires no_busy(a), no_busy(b),
    ensures no_busy(a + b),
{
    assert forall|i: int| 0 <= i < (a + b).len() implies not_busy(#[trigger] (a + b)[i]) by {
        if i < a.len() { assert((a + b)[i] == a[i]); } else { assert((a + b)[i] == b[i - a.len()]); }
    }
}

proof fn lemma_no_busy_push(a: Seq<(TeamRejectionKind, Seq<char>)>, x: (TeamRejectionKind, Seq<char>))
    requires no_busy(a), not_busy(x),
    ensures no_busy(a.push(x)),
{
    assert forall|i: int| 0 <= i < a.push(x).len() implies not_busy(#[trigger] a.push(x)[i]) by {
        if i < a.len() { assert(a.push(x)[i] == a[i]); }
    }
}

proof fn lemma_ambiguity_no_busy(lock: Seq<LockPair>)
    ensures no_busy(ambiguity_rejs(lock)),
    decreases lock.len(),
{
    if lock.len() > 0 {
        lemma_ambiguity_no_busy(lock.drop_last());
        let prev = ambiguity_rejs(lock.drop_last());
        match crate::team::converge::first_role_with_id(lock.drop_last(), lock.last().id@) {
            Some(r) => lemma_no_busy_push(prev, (TeamRejectionKind::LockAmbiguity,
                crate::team::converge::msg_ambiguous(lock.last().id@, r, lock.last().role@))),
            None => {},
        }
    }
}

proof fn lemma_root_no_busy(plan: Seq<PlannedAction>)
    ensures no_busy(root_rejs(plan)),
    decreases plan.len(),
{
    if plan.len() > 0 {
        lemma_root_no_busy(plan.drop_last());
        lemma_no_busy_push(root_rejs(plan.drop_last()), (TeamRejectionKind::RootRole, crate::team::converge::msg_root_role()));
    }
}

proof fn lemma_duplicate_no_busy(plan: Seq<PlannedAction>)
    ensures no_busy(duplicate_rejs(plan)),
    decreases plan.len(),
{
    if plan.len() > 0 {
        lemma_duplicate_no_busy(plan.drop_last());
        lemma_no_busy_push(duplicate_rejs(plan.drop_last()),
            (TeamRejectionKind::Duplicate, crate::team::converge::msg_duplicate_role(plan.last().role@)));
    }
}

proof fn lemma_skill_no_busy(role: Seq<char>, skills: Seq<Seq<char>>, errors: Seq<(String, String)>)
    ensures no_busy(skill_rejs(role, skills, errors)),
    decreases skills.len(),
{
    if skills.len() > 0 {
        lemma_skill_no_busy(role, skills.drop_last(), errors);
        match crate::team::converge::skill_error(errors, skills.last()) {
            Some(e) => lemma_no_busy_push(skill_rejs(role, skills.drop_last(), errors),
                (TeamRejectionKind::SpawnSkill, crate::team::converge::msg_skill(role, skills.last(), e))),
            None => {},
        }
    }
}

proof fn lemma_one_no_busy(x: (TeamRejectionKind, Seq<char>))
    requires not_busy(x),
    ensures no_busy(seq![x]),
{
}

proof fn lemma_spawn_row_no_busy(a: PlannedAction, root: Option<LiveBody>, known: Seq<Seq<char>>, errors: Seq<(String, String)>)
    ensures no_busy(spawn_row_rejs(a, root, known, errors)),
{
    match a.declared {
        None => {},
        Some(d) => {
            let dv = d@;
            let set = match dv.profile_set {
                None => seq![(TeamRejectionKind::SpawnProfileSet, crate::team::converge::msg_no_set(a.role@))],
                Some(s) => if known.contains(s) {
                    Seq::empty()
                } else {
                    seq![(TeamRejectionKind::SpawnProfileSet, crate::team::converge::msg_unknown_set(a.role@, s, known))]
                },
            };
            let r = spawn_row_rejs(a, root, known, errors);
            lemma_skill_no_busy(a.role@, dv.skills, errors);
            assert forall|i: int| 0 <= i < r.len() implies not_busy(#[trigger] r[i]) by {
                let sk = skill_rejs(a.role@, dv.skills, errors);
                if i >= r.len() - sk.len() {
                    assert(r[i] == sk[i - (r.len() - sk.len())]);
                }
            }
        },
    }
}

proof fn lemma_spawn_rows_no_busy(plan: Seq<PlannedAction>, root: Option<LiveBody>, known: Seq<Seq<char>>, errors: Seq<(String, String)>)
    ensures no_busy(spawn_rows_rejs(plan, root, known, errors)),
    decreases plan.len(),
{
    if plan.len() > 0 {
        lemma_spawn_rows_no_busy(plan.drop_last(), root, known, errors);
        lemma_spawn_row_no_busy(plan.last(), root, known, errors);
        lemma_no_busy_add(spawn_rows_rejs(plan.drop_last(), root, known, errors), spawn_row_rejs(plan.last(), root, known, errors));
    }
}

proof fn lemma_deact_row_waive(a: PlannedAction, live: Seq<LiveBody>, stale: Seq<Seq<char>>)
    ensures deact_row_rejs(a, live, true, stale) == waive_busy(deact_row_rejs(a, live, false, stale)),
{
    let body = match a.target {
        Some(t) => crate::team::converge::body_with_id(live, t@),
        None => None,
    };
    let busy_f = match body {
        Some(b) => if b.busy { seq![(TeamRejectionKind::Busy, crate::team::converge::msg_busy(a.role@, b.id@))] } else { Seq::empty() },
        None => Seq::empty(),
    };
    let kids = match body {
        Some(b) => if b.children > 0 {
            seq![(TeamRejectionKind::LiveChildren, crate::team::converge::msg_children(a.role@, b.id@, b.children as nat))]
        } else {
            Seq::empty()
        },
        None => Seq::empty(),
    };
    let st = match a.target {
        Some(t) => if stale.contains(t@) {
            seq![(TeamRejectionKind::StaleInactive, crate::team::converge::msg_stale(t@))]
        } else {
            Seq::empty()
        },
        None => Seq::empty(),
    };
    assert(deact_row_rejs(a, live, false, stale) == busy_f + kids + st);
    assert(deact_row_rejs(a, live, true, stale) =~= kids + st);
    lemma_waive_add(busy_f + kids, st);
    lemma_waive_add(busy_f, kids);
    lemma_waive_id(kids);
    lemma_waive_id(st);
    assert(waive_busy(busy_f) =~= Seq::<(TeamRejectionKind, Seq<char>)>::empty()) by {
        if busy_f.len() > 0 {
            lemma_waive_push(Seq::empty(), busy_f[0]);
            assert(Seq::<(TeamRejectionKind, Seq<char>)>::empty().push(busy_f[0]) =~= busy_f);
            lemma_waive_id(Seq::empty());
        } else {
            lemma_waive_id(busy_f);
        }
    }
    assert(Seq::<(TeamRejectionKind, Seq<char>)>::empty() + kids =~= kids);
}

proof fn lemma_deact_waive(plan: Seq<PlannedAction>, live: Seq<LiveBody>, stale: Seq<Seq<char>>)
    ensures deact_rejs(plan, live, true, stale) == waive_busy(deact_rejs(plan, live, false, stale)),
    decreases plan.len(),
{
    if plan.len() == 0 {
        lemma_waive_id(Seq::empty());
    } else {
        lemma_deact_waive(plan.drop_last(), live, stale);
        if plan.last().action == TeamAction::Deactivate {
            lemma_deact_row_waive(plan.last(), live, stale);
            lemma_waive_add(deact_rejs(plan.drop_last(), live, false, stale), deact_row_rejs(plan.last(), live, false, stale));
        }
    }
}

/// `force` waives only busy-target refusals: the preflight verdict with
/// `force` is the verdict without it, minus its busy refusals; every
/// other refusal stands, in the same order.
pub proof fn law_force_waives_only_busy(
    plan: Seq<PlannedAction>,
    root: Option<LiveBody>,
    lock: Seq<LockPair>,
    live: Seq<LiveBody>,
    known: Seq<Seq<char>>,
    stale: Seq<Seq<char>>,
    errors: Seq<(String, String)>,
    max_agents: nat,
    max_subagents: nat,
)
    ensures
        preflight_spec(plan, root, lock, live, true, known, stale, errors, max_agents, max_subagents)
            == waive_busy(preflight_spec(plan, root, lock, live, false, known, stale, errors, max_agents, max_subagents)),
{
    let a = ambiguity_rejs(lock);
    let r = root_rejs(plan);
    let d = duplicate_rejs(plan);
    let df = deact_rejs(plan, live, false, stale);
    let sp = spawn_rejs(plan, root, known, errors);
    let c = capacity_rejs(plan, live.len(), root, max_agents, max_subagents);
    lemma_ambiguity_no_busy(lock);
    lemma_root_no_busy(plan);
    lemma_duplicate_no_busy(plan);
    lemma_spawn_rows_no_busy(plan, root, known, errors);
    assert(no_busy(sp)) by {
        if crate::team::converge::count_action(plan, TeamAction::Spawn) != 0 {
            let head = if root matches Some(x) && !x.faulted { Seq::empty() } else {
                seq![(TeamRejectionKind::SpawnRootDown, crate::team::converge::msg_root_down())]
            };
            lemma_no_busy_add(head, spawn_rows_rejs(plan, root, known, errors));
        }
    }
    assert(no_busy(c)) by {
        assert forall|i: int| 0 <= i < c.len() implies not_busy(#[trigger] c[i]) by {}
    }
    lemma_deact_waive(plan, live, stale);
    lemma_waive_add(a + r + d + df + sp, c);
    lemma_waive_add(a + r + d + df, sp);
    lemma_waive_add(a + r + d, df);
    lemma_waive_add(a + r, d);
    lemma_waive_add(a, r);
    lemma_waive_id(a);
    lemma_waive_id(r);
    lemma_waive_id(d);
    lemma_waive_id(sp);
    lemma_waive_id(c);
}

/// Law: alignment follows the declaration field by field. A declared
/// profile set the body is not bound to is aligned to exactly that set,
/// and a body already bound to it (or a declaration silent on it) aligns
/// none; a non-empty declared description the body lacks is aligned to
/// exactly that description, and nothing else is.
pub proof fn law_align_follows_declaration(d: crate::team::RoleDeclView, body: LiveBody)
    ensures
        d.profile_set is Some && crate::team::opt_view(body.profile_set) != d.profile_set
            ==> crate::team::converge::align_spec(d, body).profile_set == d.profile_set,
        d.profile_set is None || crate::team::opt_view(body.profile_set) == d.profile_set
            ==> crate::team::converge::align_spec(d, body).profile_set is None,
        d.description.len() > 0 && d.description != body.description@
            ==> crate::team::converge::align_spec(d, body).description == Some(d.description),
        d.description.len() == 0 || d.description == body.description@
            ==> crate::team::converge::align_spec(d, body).description is None,
{
}

/// Law: a drifted profile-set binding is never retained. For a declared
/// role whose one live body is the body its lock names (or that has no
/// lock record) and whose record stands, a declared profile set the body
/// is not bound to plans an `AlignMetadata` row that targets the body and
/// aligns the binding to the declared set.
pub proof fn law_binding_drift_is_aligned(
    d: crate::team::RoleDeclView,
    pair: Option<LockPair>,
    bodies: Seq<LiveBody>,
)
    requires
        bodies.len() >= 1,
        !(pair matches Some(p) && p.id@ != bodies[0].id@),
        d.profile_set is Some,
        crate::team::opt_view(bodies[0].profile_set) != d.profile_set,
    ensures
        ({
            let v = crate::team::converge::verb_spec(crate::team::RoleDisposition::Active, Some(d), pair, bodies, false);
            &&& v.0 == TeamAction::AlignMetadata
            &&& v.1 == Some(bodies[0].id@)
            &&& v.2.profile_set == d.profile_set
        }),
{
    law_align_follows_declaration(d, bodies[0]);
}

/// Law: capacity counts the batch net. The agent-count refusal comes
/// exactly when the live agents plus the spawns and restores, minus the
/// deactivations, exceed the limit, and the root's subagent refusal
/// exactly when its children plus that same net exceed its limit. A
/// spawn matched by a deactivation never adds a refusal.
pub proof fn law_capacity_counts_net(
    plan: Seq<PlannedAction>,
    n_live: nat,
    root: Option<LiveBody>,
    max_agents: nat,
    max_subagents: nat,
)
    ensures
        ({
            let c = capacity_rejs(plan, n_live, root, max_agents, max_subagents);
            let net = crate::team::converge::count_action(plan, TeamAction::Spawn)
                + crate::team::converge::count_action(plan, TeamAction::Restore)
                - crate::team::converge::count_action(plan, TeamAction::Deactivate);
            &&& (exists|i: int| 0 <= i < c.len() && (#[trigger] c[i]).0 == TeamRejectionKind::CapacityAgents)
                <==> n_live + net > max_agents
            &&& (exists|i: int| 0 <= i < c.len() && (#[trigger] c[i]).0 == TeamRejectionKind::CapacityChildren)
                <==> (root matches Some(r) && r.children + net > max_subagents)
        }),
{
    let c = capacity_rejs(plan, n_live, root, max_agents, max_subagents);
    let net = crate::team::converge::count_action(plan, TeamAction::Spawn)
        + crate::team::converge::count_action(plan, TeamAction::Restore)
        - crate::team::converge::count_action(plan, TeamAction::Deactivate);
    let projected = n_live + net;
    let a: Seq<(TeamRejectionKind, Seq<char>)> = if projected > max_agents {
        seq![(TeamRejectionKind::CapacityAgents, crate::team::converge::msg_over_agents(projected as nat, max_agents))]
    } else {
        Seq::empty()
    };
    let b: Seq<(TeamRejectionKind, Seq<char>)> = match root {
        Some(r) => if r.children + net > max_subagents {
            seq![(TeamRejectionKind::CapacityChildren, crate::team::converge::msg_over_children((r.children + net) as nat, max_subagents))]
        } else {
            Seq::empty()
        },
        None => Seq::empty(),
    };
    assert(c == a + b);
    if projected > max_agents {
        assert(c[0] == a[0]);
    }
    if root matches Some(r) && r.children + net > max_subagents {
        assert(c[a.len() as int] == b[0]);
    }
    assert((exists|i: int| 0 <= i < c.len() && (#[trigger] c[i]).0 == TeamRejectionKind::CapacityAgents)
        ==> projected > max_agents) by {
        if exists|i: int| 0 <= i < c.len() && (#[trigger] c[i]).0 == TeamRejectionKind::CapacityAgents {
            let i = choose|i: int| 0 <= i < c.len() && (#[trigger] c[i]).0 == TeamRejectionKind::CapacityAgents;
            if i >= a.len() { assert(c[i] == b[i - a.len()]); }
        }
    }
    assert((exists|i: int| 0 <= i < c.len() && (#[trigger] c[i]).0 == TeamRejectionKind::CapacityChildren)
        ==> (root matches Some(r) && r.children + net > max_subagents)) by {
        if exists|i: int| 0 <= i < c.len() && (#[trigger] c[i]).0 == TeamRejectionKind::CapacityChildren {
            let i = choose|i: int| 0 <= i < c.len() && (#[trigger] c[i]).0 == TeamRejectionKind::CapacityChildren;
            if i < a.len() { assert(c[i] == a[i]); } else { assert(c[i] == b[i - a.len()]); }
        }
    }
}

} // verus!
