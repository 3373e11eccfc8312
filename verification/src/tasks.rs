//! The task ledger's route face: the store's refusals as route errors,
//! the id→role snapshot that fills exported events, and the confirmer
//! names a create verb resolves.
use vstd::prelude::*;
use vstd::string::StringExecFns;
use crate::auth::ApiError;
use crate::fmt::{display_i128, signed_decimal};
use crate::keyed::{find_key, keys_unique, lemma_lookup, pairs_map};
use crate::registry::{AgentRegistry, RegistryEntry};
use crate::team::converge::{join_names, join_with_commas};
use crate::text::{chars_of, owned_range};

verus! {

/// A refusal of the task store. The kind decides the route status; the
/// store's own rendering of the refusal travels as `detail`.
#[derive(Clone, Debug)]
pub enum TaskError {
    NotFound { id: i64 },
    InvalidTransition { detail: String },
    SerialGate { detail: String },
    ConfirmationGate { detail: String },
    ConfirmerUnresolved { detail: String },
    ArchiveGate { detail: String },
    AssociationInvalid { detail: String },
    DossierNotDir { detail: String },
    ReportTooLarge { detail: String },
    Other { detail: String },
}

/// State refusals are conflicts, unknown ids are misses, caller input
/// (association keys, a dossier path, an oversized report) is a bad
/// request, and everything else is the server's own failure.
pub open spec fn task_error_status(e: TaskError) -> u16 {
    match e {
        TaskError::NotFound { .. } => 404,
        TaskError::InvalidTransition { .. } | TaskError::SerialGate { .. } | TaskError::ConfirmationGate { .. }
        | TaskError::ConfirmerUnresolved { .. } | TaskError::ArchiveGate { .. } => 409,
        TaskError::AssociationInvalid { .. } | TaskError::DossierNotDir { .. } | TaskError::ReportTooLarge { .. } => 400,
        TaskError::Other { .. } => 500,
    }
}

/// The route message: a miss names the task, every other refusal
/// passes the store's rendering through.
pub open spec fn task_error_message(e: TaskError) -> Seq<char> {
    match e {
        TaskError::NotFound { id } => "task "@ + signed_decimal(id as int) + " not found"@,
        TaskError::InvalidTransition { detail } => detail@,
        TaskError::SerialGate { detail } => detail@,
        TaskError::ConfirmationGate { detail } => detail@,
        TaskError::ConfirmerUnresolved { detail } => detail@,
        TaskError::ArchiveGate { detail } => detail@,
        TaskError::AssociationInvalid { detail } => detail@,
        TaskError::DossierNotDir { detail } => detail@,
        TaskError::ReportTooLarge { detail } => detail@,
        TaskError::Other { detail } => detail@,
    }
}

/// Map a store refusal to the route error (see [`task_error_status`]).
pub fn api_error(err: TaskError) -> (e: ApiError)
    ensures
        e.status == task_error_status(err),
        e.message@ == task_error_message(err),
{
    match err {
        TaskError::NotFound { id } => {
            let n = display_i128(id as i128);
            ApiError::not_found(String::from_str("task ").concat(n.as_str()).concat(" not found"))
        },
        TaskError::InvalidTransition { detail } => ApiError::conflict(detail),
        TaskError::SerialGate { detail } => ApiError::conflict(detail),
        TaskError::ConfirmationGate { detail } => ApiError::conflict(detail),
        TaskError::ConfirmerUnresolved { detail } => ApiError::conflict(detail),
        TaskError::ArchiveGate { detail } => ApiError::conflict(detail),
        TaskError::AssociationInvalid { detail } => ApiError::bad_request(detail),
        TaskError::DossierNotDir { detail } => ApiError::bad_request(detail),
        TaskError::ReportTooLarge { detail } => ApiError::bad_request(detail),
        TaskError::Other { detail } => ApiError::internal(detail),
    }
}

/// The actor fields of one exported task event.
#[derive(Clone, Debug)]
pub struct TaskEventActor {
    /// Who acted: an agent id, a confirmer name, the literal `operator`,
    /// or nobody.
    pub actor: Option<String>,
    /// The actor's role, filled on the way out.
    pub actor_role: Option<String>,
}

/// The id→role pairs of a registry listing, in registry order.
pub open spec fn roles_of(l: Seq<(String, RegistryEntry)>) -> Seq<(Seq<char>, Seq<char>)> {
    l.map_values(|e: (String, RegistryEntry)| (e.0@, e.1.ident().config.role@))
}

pub open spec fn string_pairs(s: Seq<(String, String)>) -> Seq<(Seq<char>, Seq<char>)> {
    s.map_values(|e: (String, String)| (e.0@, e.1@))
}

/// One id→role snapshot: every registered agent with its role, in
/// registry order.
pub fn role_snapshot(registry: &AgentRegistry) -> (r: Vec<(String, String)>)
    requires registry.wf(),
    ensures
        string_pairs(r@) == roles_of(registry.listing()),
        keys_unique(r@),
{
    proof { registry.lemma_listing(); }
    let entries = registry.iter();
    let mut out: Vec<(String, String)> = Vec::new();
    let mut i: usize = 0;
    while i < entries.len()
        invariant
            entries@ == registry.listing(),
            keys_unique(entries@),
            i <= entries.len(),
            out@.len() == i,
            forall|j: int| 0 <= j < i ==> #[trigger] out@[j].0@ == entries@[j].0@
                && out@[j].1@ == entries@[j].1.ident().config.role@,
        decreases entries.len() - i,
    {
        out.push((entries[i].0.clone(), entries[i].1.identity().config.role.clone()));
        i = i + 1;
    }
    proof {
        assert(string_pairs(out@) =~= roles_of(entries@));
        assert forall|a: int, b: int| 0 <= a < b < out@.len() implies out@[a].0@ != out@[b].0@ by {
            assert(out@[a].0@ == entries@[a].0@);
            assert(out@[b].0@ == entries@[b].0@);
        }
    }
    out
}

/// The role an actor fills in: a registered agent id gains its role;
/// confirmer names, the `operator` literal, deregistered ids and absent
/// actors stay without one.
pub open spec fn role_for(roles: Seq<(String, String)>, actor: Option<String>) -> Option<Seq<char>> {
    match actor {
        Some(a) => if pairs_map(roles).contains_key(a@) { Some(pairs_map(roles)[a@]@) } else { None },
        None => None,
    }
}

pub open spec fn opt_chars(o: Option<String>) -> Option<Seq<char>> {
    match o {
        Some(s) => Some(s@),
        None => None,
    }
}

/// Fill `actor_role` on every event from the id→role snapshot; the
/// actors themselves are untouched.
pub fn inject_actor_roles(events: &mut Vec<TaskEventActor>, roles: &Vec<(String, String)>)
    requires keys_unique(roles@),
    ensures
        final(events)@.len() == old(events)@.len(),
        forall|i: int| 0 <= i < final(events)@.len() ==> {
            &&& (#[trigger] final(events)@[i]).actor == old(events)@[i].actor
            &&& opt_chars(final(events)@[i].actor_role) == role_for(roles@, old(events)@[i].actor)
        },
{
    let ghost before = events@;
    let n = events.len();
    let mut i: usize = 0;
    while i < n
        invariant
            keys_unique(roles@),
            n == before.len(),
            events@.len() == n,
            i <= n,
            forall|j: int| 0 <= j < i ==> {
                &&& (#[trigger] events@[j]).actor == before[j].actor
                &&& opt_chars(events@[j].actor_role) == role_for(roles@, before[j].actor)
            },
            forall|j: int| i <= j < n ==> #[trigger] events@[j] == before[j],
        decreases n - i,
    {
        let role: Option<String> = match &events[i].actor {
            Some(a) => match find_key(roles, a) {
                Some(k) => {
                    proof { lemma_lookup(roles@, k as int); }
                    Some(roles[k].1.clone())
                },
                None => None,
            },
            None => None,
        };
        let actor = events[i].actor.clone();
        proof {
            assert(actor == before[i as int].actor);
        }
        events.set(i, TaskEventActor { actor, actor_role: role });
        i = i + 1;
    }
}

/// The registry position of the last agent holding `role`, or `-1`
/// (later registrations shadow earlier ones under the same role).
pub open spec fn last_with_role(l: Seq<(String, RegistryEntry)>, role: Seq<char>) -> int
    decreases l.len(),
{
    if l.len() == 0 {
        -1
    } else if l.last().1.ident().config.role@ == role {
        l.len() - 1
    } else {
        last_with_role(l.drop_last(), role)
    }
}

proof fn lemma_last_with_role(l: Seq<(String, RegistryEntry)>, role: Seq<char>)
    ensures
        -1 <= last_with_role(l, role) < l.len(),
        last_with_role(l, role) >= 0 ==> l[last_with_role(l, role)].1.ident().config.role@ == role,
    decreases l.len(),
{
    if l.len() > 0 {
        lemma_last_with_role(l.drop_last(), role);
    }
}

/// The confirmer a create verb's name resolves to: the agent id holding
/// that role, or `None` (the store then refuses the confirmer as
/// unresolved).
pub fn confirmer_for(registry: &AgentRegistry, name: &str) -> (r: Option<String>)
    requires registry.wf(),
    ensures
        ({
            let k = last_with_role(registry.listing(), name@);
            match r {
                Some(id) => k >= 0 && id@ == registry.listing()[k].0@,
                None => k < 0,
            }
        }),
{
    let entries = registry.iter();
    let ghost l = registry.listing();
    let mut i: usize = entries.len();
    proof { assert(l.take(i as int) =~= l); }
    while i > 0
        invariant
            entries@ == l,
            l == registry.listing(),
            i <= l.len(),
            last_with_role(l, name@) == last_with_role(l.take(i as int), name@),
        decreases i,
    {
        proof { assert(l.take(i as int).drop_last() =~= l.take(i - 1)); }
        if str_eq_string(&entries[i - 1].1.identity().config.role, name) {
            proof {
                assert(l.take(i as int).last() == l[i - 1]);
                assert(last_with_role(l.take(i as int), name@) == i - 1);
            }
            return Some(entries[i - 1].0.clone());
        }
        i = i - 1;
    }
    proof { lemma_last_with_role(l.take(0), name@); }
    None
}

fn str_eq_string(a: &String, b: &str) -> (r: bool)
    ensures r == (a@ == b@),
{
    crate::config::str_eq(a.as_str(), b)
}

/// The pieces of `s` between occurrences of `", "`, as `str::split`
/// yields them (matches taken left to right; empty pieces kept).
pub open spec fn split_list(s: Seq<char>) -> Seq<Seq<char>>
    decreases s.len(),
{
    if s.len() == 0 {
        seq![Seq::empty()]
    } else if s.len() >= 2 && s[0] == ',' && s[1] == ' ' {
        seq![Seq::<char>::empty()] + split_list(s.subrange(2, s.len() as int))
    } else {
        let r = split_list(s.drop_first());
        r.update(0, seq![s[0]] + r[0])
    }
}

proof fn lemma_split_list_nonempty(s: Seq<char>)
    ensures split_list(s).len() >= 1,
    decreases s.len(),
{
    if s.len() >= 2 && s[0] == ',' && s[1] == ' ' {
        lemma_split_list_nonempty(s.subrange(2, s.len() as int));
    } else if s.len() > 0 {
        lemma_split_list_nonempty(s.drop_first());
    }
}

/// `r` with `p` put in front of its first piece.
pub open spec fn prepend_first(p: Seq<char>, r: Seq<Seq<char>>) -> Seq<Seq<char>> {
    r.update(0, p + r[0])
}

/// An id as a person reads it: the role of a registered agent, the id
/// itself otherwise.
pub open spec fn role_or_id(roles: Seq<(String, String)>, id: Seq<char>) -> Seq<char> {
    if pairs_map(roles).contains_key(id) { pairs_map(roles)[id]@ } else { id }
}

/// The refusal of a close that lacks confirmations: the store lists the
/// missing confirmer ids joined by `", "`; the route names them by role.
pub open spec fn close_gate_msg(roles: Seq<(String, String)>, missing: Seq<char>) -> Seq<char> {
    "confirmation gate: missing confirmations from registered confirmers: "@
        + join_names(split_list(missing).map_values(|p: Seq<char>| role_or_id(roles, p)))
        + "; --force to override (escape is recorded)"@
}

/// The `409` a close without its confirmations answers (see
/// [`close_gate_msg`]).
pub fn close_gate_error(missing: &str, roles: &Vec<(String, String)>) -> (e: ApiError)
    requires keys_unique(roles@),
    ensures
        e.status == 409,
        e.message@ == close_gate_msg(roles@, missing@),
{
    let cs = chars_of(missing);
    let n = cs.len();
    let mut pieces: Vec<String> = Vec::new();
    let mut start: usize = 0;
    let mut i: usize = 0;
    proof {
        lemma_split_list_nonempty(cs@);
        assert(cs@.subrange(0, n as int) =~= cs@);
        assert(prepend_first(Seq::<char>::empty(), split_list(cs@)) =~= split_list(cs@));
        assert(Seq::<Seq<char>>::empty() + split_list(cs@) =~= split_list(cs@));
    }
    while i < n
        invariant
            cs@ == missing@,
            n == cs@.len(),
            start <= i <= n,
            split_list(cs@) == pieces.deep_view()
                + prepend_first(cs@.subrange(start as int, i as int), split_list(cs@.subrange(i as int, n as int))),
        decreases n - i,
    {
        let ghost t = cs@.subrange(i as int, n as int);
        let ghost cur = cs@.subrange(start as int, i as int);
        if i + 1 < n && cs[i] == ',' && cs[i + 1] == ' ' {
            let piece = owned_range(missing, start, i);
            proof {
                assert(t[0] == cs@[i as int] && t[1] == cs@[i + 1]);
                assert(t.subrange(2, t.len() as int) =~= cs@.subrange(i + 2, n as int));
                let rest = split_list(cs@.subrange(i + 2, n as int));
                lemma_split_list_nonempty(cs@.subrange(i + 2, n as int));
                assert(split_list(t) == seq![Seq::<char>::empty()] + rest);
                assert(prepend_first(cur, split_list(t)) =~= seq![cur] + rest);
                assert(prepend_first(Seq::<char>::empty(), rest) =~= rest);
                assert(cs@.subrange(i + 2, i + 2) =~= Seq::<char>::empty());
                assert(pieces.deep_view().push(piece@) + rest =~= pieces.deep_view() + (seq![cur] + rest));
            }
            pieces.push(piece);
            i = i + 2;
            start = i;
        } else {
            proof {
                assert(t.drop_first() =~= cs@.subrange(i + 1, n as int));
                let r = split_list(cs@.subrange(i + 1, n as int));
                lemma_split_list_nonempty(cs@.subrange(i + 1, n as int));
                assert(t[0] == cs@[i as int]);
                assert(split_list(t) == r.update(0, seq![cs@[i as int]] + r[0]));
                assert(cur + (seq![cs@[i as int]] + r[0]) =~= cs@.subrange(start as int, i + 1) + r[0]);
                assert(prepend_first(cur, split_list(t)) =~= prepend_first(cs@.subrange(start as int, i + 1), r));
            }
            i = i + 1;
        }
    }
    let last = owned_range(missing, start, n);
    proof {
        assert(cs@.subrange(n as int, n as int) =~= Seq::<char>::empty());
        assert(prepend_first(last@, seq![Seq::<char>::empty()]) =~= seq![last@]);
        assert(pieces.deep_view().push(last@) =~= pieces.deep_view() + seq![last@]);
    }
    pieces.push(last);
    let ghost ps = pieces.deep_view();
    proof { assert(ps =~= split_list(missing@)); }
    let mut names: Vec<String> = Vec::new();
    let mut k: usize = 0;
    while k < pieces.len()
        invariant
            keys_unique(roles@),
            ps == pieces.deep_view(),
            k <= pieces.len(),
            names.deep_view() == ps.take(k as int).map_values(|p: Seq<char>| role_or_id(roles@, p)),
        decreases pieces.len() - k,
    {
        proof { assert(ps[k as int] == pieces@[k as int]@); }
        let name = match find_key(roles, &pieces[k]) {
            Some(j) => {
                proof {
                    lemma_lookup(roles@, j as int);
                    assert(roles@[j as int].1@ == role_or_id(roles@, ps[k as int]));
                }
                roles[j].1.clone()
            },
            None => pieces[k].clone(),
        };
        proof { assert(name@ == role_or_id(roles@, ps[k as int])); }
        let ghost before = names.deep_view();
        names.push(name);
        proof {
            let want = ps.take(k + 1).map_values(|p: Seq<char>| role_or_id(roles@, p));
            assert(names.deep_view() =~= before.push(role_or_id(roles@, ps[k as int])));
            assert forall|j: int| 0 <= j < k + 1 implies #[trigger] want[j] == names.deep_view()[j] by {
                if j < k {
                    assert(before[j] == role_or_id(roles@, ps.take(k as int)[j]));
                    assert(ps.take(k as int)[j] == ps.take(k + 1)[j]);
                }
            }
            assert(names.deep_view() =~= want);
        }
        k = k + 1;
    }
    proof {
        assert(ps.take(pieces.len() as int) =~= ps);
    }
    let joined = join_with_commas(&names);
    ApiError::conflict(
        String::from_str("confirmation gate: missing confirmations from registered confirmers: ")
            .concat(joined.as_str())
            .concat("; --force to override (escape is recorded)"),
    )
}

} // verus!
