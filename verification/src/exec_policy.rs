//! Exec-policy writes: who may write an agent's command policy, which
//! live neighbours constrain the write (its supervisor above, its
//! subagents below), and the refusal a failed strictness check becomes.
//! The strictness comparison itself belongs to the policy catalog; the
//! verdict here takes its outcome for each neighbour.
use vstd::prelude::*;
use vstd::string::StringExecFns;
use crate::agents::{superior_ok, superior_refusal};
use crate::auth::{ApiError, Identity};
use crate::registry::{AgentRegistry, RegistryEntry};
use crate::team::opt_view;

verus! {

/// `k` names a live entry of `m`.
pub open spec fn is_live(m: Map<Seq<char>, RegistryEntry>, k: Seq<char>) -> bool {
    m.contains_key(k) && m[k] is Live
}

/// The ids of `ids` that name live entries, in order.
pub open spec fn live_ids(m: Map<Seq<char>, RegistryEntry>, ids: Seq<Seq<char>>) -> Seq<Seq<char>>
    decreases ids.len(),
{
    if ids.len() == 0 {
        Seq::empty()
    } else if is_live(m, ids.last()) {
        live_ids(m, ids.drop_last()).push(ids.last())
    } else {
        live_ids(m, ids.drop_last())
    }
}

/// The supervisor of `e` when it is live.
pub open spec fn parent_spec(m: Map<Seq<char>, RegistryEntry>, e: RegistryEntry) -> Option<Seq<char>> {
    match e.sup() {
        Some(p) => if is_live(m, p) { Some(p) } else { None },
        None => None,
    }
}

/// The live agents whose policies bound a write: the supervisor (when it
/// is live) must be no stricter than the new policy, and each live
/// subagent must stay at least as strict as it.
#[derive(Clone, Debug)]
pub struct PolicyNeighbours {
    pub parent: Option<String>,
    pub children: Vec<String>,
}

/// The checks before an exec-policy write, and the neighbours it is
/// held against: the caller must be a superior of `id`; the agent must
/// exist (`404`) and be live (`409`). A faulted supervisor or subagent
/// contributes no constraint.
pub fn policy_neighbours(registry: &AgentRegistry, identity: &Identity, id: &String) -> (r: Result<PolicyNeighbours, ApiError>)
    requires registry.wf(),
    ensures
        !superior_ok(registry.map(), *identity, id@) ==> (r matches Err(e)
            && superior_refusal(registry.map(), *identity, id@, e)),
        superior_ok(registry.map(), *identity, id@) ==> {
            let m = registry.map();
            if !m.contains_key(id@) {
                r matches Err(e) && e.status == 404 && e.message@ == "agent not found"@
            } else if m[id@] is Faulted {
                r matches Err(e) && e.status == 409 && e.message@ == "agent is faulted; exec_policy not available"@
            } else {
                r matches Ok(n) && opt_view(n.parent) == parent_spec(m, m[id@])
                    && n.children.deep_view() == live_ids(m, m[id@].kids())
            }
        },
{
    match registry.require_superior(identity, id) {
        Ok(()) => {},
        Err(e) => return Err(e),
    }
    let entry = match registry.get(id) {
        Some(e) => e,
        None => return Err(ApiError::not_found(String::from_str("agent not found"))),
    };
    if entry.as_live().is_none() {
        return Err(ApiError::conflict(String::from_str("agent is faulted; exec_policy not available")));
    }
    let parent = match &entry.identity().config.created_by {
        Some(p) => match registry.get(p) {
            Some(pe) => if pe.as_live().is_some() { Some(p.clone()) } else { None },
            None => None,
        },
        None => None,
    };
    let kids = entry.subagent_ids();
    let ghost m = registry.map();
    let mut children: Vec<String> = Vec::new();
    let mut i: usize = 0;
    while i < kids.len()
        invariant
            registry.wf(),
            m == registry.map(),
            i <= kids.len(),
            children.deep_view() == live_ids(m, kids.deep_view().take(i as int)),
        decreases kids.len() - i,
    {
        proof {
            assert(kids.deep_view().take(i + 1).drop_last() =~= kids.deep_view().take(i as int));
            assert(kids.deep_view()[i as int] == kids@[i as int]@);
        }
        let live = match registry.get(&kids[i]) {
            Some(c) => c.as_live().is_some(),
            None => false,
        };
        if live {
            children.push(kids[i].clone());
            proof {
                assert(children.deep_view() =~= live_ids(m, kids.deep_view().take(i as int)).push(kids@[i as int]@));
            }
        }
        i = i + 1;
    }
    proof { assert(kids.deep_view().take(kids.len() as int) =~= kids.deep_view()); }
    Ok(PolicyNeighbours { parent, children })
}

/// `parts` joined by `"; "`.
pub open spec fn join_semi(parts: Seq<Seq<char>>) -> Seq<char>
    decreases parts.len(),
{
    if parts.len() == 0 {
        Seq::empty()
    } else if parts.len() == 1 {
        parts[0]
    } else {
        join_semi(parts.drop_last()) + "; "@ + parts.last()
    }
}

fn join_with_semicolons(parts: &Vec<String>) -> (r: String)
    ensures r@ == join_semi(parts.deep_view()),
{
    let mut out = String::new();
    let mut i: usize = 0;
    while i < parts.len()
        invariant
            i <= parts.len(),
            out@ == join_semi(parts.deep_view().take(i as int)),
        decreases parts.len() - i,
    {
        proof {
            assert(parts.deep_view().take(i + 1).drop_last() =~= parts.deep_view().take(i as int));
            assert(parts.deep_view()[i as int] == parts@[i as int]@);
        }
        if i == 0 {
            out = parts[0].clone();
            proof { assert(parts.deep_view().take(1) =~= seq![parts@[0]@]); }
        } else {
            out = out.concat("; ").concat(parts[i].as_str());
        }
        i = i + 1;
    }
    proof { assert(parts.deep_view().take(parts.len() as int) =~= parts.deep_view()); }
    out
}

/// The index of the first subagent whose check failed, or the count.
pub open spec fn first_failed(children: Seq<(Seq<char>, Option<Seq<Seq<char>>>)>) -> int
    decreases children.len(),
{
    if children.len() == 0 {
        0
    } else if children[0].1 is Some {
        0
    } else {
        1 + first_failed(children.drop_first())
    }
}

/// One subagent's check outcome: its id, and the violations found
/// (`None` when it is still at least as strict).
pub type ChildOutcome = (String, Option<Vec<String>>);

pub open spec fn outcome_view(c: ChildOutcome) -> (Seq<char>, Option<Seq<Seq<char>>>) {
    (c.0@, match c.1 { Some(v) => Some(v.deep_view()), None => None })
}

pub open spec fn outcomes_view(cs: Seq<ChildOutcome>) -> Seq<(Seq<char>, Option<Seq<Seq<char>>>)> {
    cs.map_values(|c: ChildOutcome| outcome_view(c))
}

/// The verdict of a write from the strictness outcomes, in the order the
/// write runs them: an invalid override key (`400`, its message as the
/// catalog words it), then the supervisor's check (`409` listing the
/// violations), then each subagent in order (`409` naming the first
/// that would become laxer than the new policy).
pub fn policy_verdict(key_error: Option<String>, parent: Option<Vec<String>>, children: &Vec<ChildOutcome>) -> (r: Result<(), ApiError>)
    ensures
        match key_error {
            Some(k) => r matches Err(e) && e.status == 400 && e.message@ == k@,
            None => match parent {
                Some(v) => r matches Err(e) && e.status == 409
                    && e.message@ == "exec_policy violations: "@ + join_semi(v.deep_view()),
                None => {
                    let cs = outcomes_view(children@);
                    let i = first_failed(cs);
                    if i < cs.len() {
                        r matches Err(e) && e.status == 409
                            && e.message@ == "child "@ + cs[i].0 + ": "@ + join_semi(cs[i].1.unwrap())
                    } else {
                        r is Ok
                    }
                },
            },
        },
{
    match key_error {
        Some(k) => return Err(ApiError::bad_request(k)),
        None => {},
    }
    match parent {
        Some(v) => {
            let j = join_with_semicolons(&v);
            return Err(ApiError::conflict(String::from_str("exec_policy violations: ").concat(j.as_str())));
        },
        None => {},
    }
    let ghost cs = outcomes_view(children@);
    let mut i: usize = 0;
    proof { assert(cs.subrange(0, cs.len() as int) =~= cs); }
    while i < children.len()
        invariant
            i <= children.len(),
            key_error is None,
            parent is None,
            cs == outcomes_view(children@),
            cs.len() == children.len(),
            first_failed(cs) == i + first_failed(cs.subrange(i as int, cs.len() as int)),
        decreases children.len() - i,
    {
        proof {
            assert(cs.subrange(i as int, cs.len() as int)[0] == cs[i as int]);
            assert(cs.subrange(i as int, cs.len() as int).drop_first() =~= cs.subrange(i + 1, cs.len() as int));
        }
        match &children[i].1 {
            Some(v) => {
                let j = join_with_semicolons(v);
                proof { assert(cs[i as int] == outcome_view(children@[i as int])); }
                return Err(ApiError::conflict(String::from_str("child ").concat(children[i].0.as_str()).concat(": ").concat(j.as_str())));
            },
            None => {},
        }
        i = i + 1;
    }
    proof {
        assert(cs.subrange(i as int, cs.len() as int) =~= Seq::<(Seq<char>, Option<Seq<Seq<char>>>)>::empty());
    }
    Ok(())
}

} // verus!
