//! Task-ledger change watcher decisions: who a task change wakes, and
//! the keep-last debounce over a drained batch of change events.
use vstd::prelude::*;
use crate::registry::{AgentRegistry, RegistryEntry};
use crate::keyed::{keys_unique, pairs_map};
use crate::config::str_eq;

verus! {

/// One task-ledger change, as published on the topic bus.
#[derive(Clone, Debug)]
pub struct TaskChanged {
    pub task_id: i64,
    pub title: String,
    pub status: String,
    pub verb: String,
    pub creator: Option<String>,
    pub assignee: Option<String>,
    pub confirmers: Vec<String>,
}

/// Verbs that never wake anyone: they reach the affected agents through
/// their own explicit message face instead.
pub const SILENT_VERBS: [&'static str; 1] = ["close"];

/// The verb on which the creator is dropped from the people set (the
/// creator just spoke).
pub const CREATOR_SILENT_VERBS: [&'static str; 1] = ["create"];

pub open spec fn close_verb() -> Seq<char> { seq!['c', 'l', 'o', 's', 'e'] }

pub open spec fn create_verb() -> Seq<char> { seq!['c', 'r', 'e', 'a', 't', 'e'] }

/// `s` with later repeats dropped, first-occurrence order kept.
pub open spec fn dedup(s: Seq<Seq<char>>) -> Seq<Seq<char>>
    decreases s.len(),
{
    if s.len() == 0 {
        Seq::empty()
    } else {
        let d = dedup(s.drop_last());
        if d.contains(s.last()) { d } else { d.push(s.last()) }
    }
}

/// The raw people list of an event: confirmers, then the assignee, then
/// the creator unless the verb is `create`.
pub open spec fn raw_people(ev: TaskChanged) -> Seq<Seq<char>> {
    let base = ev.confirmers.deep_view();
    let with_assignee = match ev.assignee {
        Some(a) => base.push(a@),
        None => base,
    };
    match ev.creator {
        Some(c) if ev.verb@ != create_verb() => with_assignee.push(c@),
        _ => with_assignee,
    }
}

/// Whether `v` is silent (never wakes anyone).
pub fn is_silent_verb(v: &str) -> (b: bool)
    ensures b == (v@ == close_verb()),
{
    let close = "close";
    proof {
        reveal_strlit("close");
        assert(close@ =~= close_verb());
    }
    str_eq(v, close)
}

fn push_unique(out: &mut Vec<String>, x: String)
    ensures
        final(out).deep_view() == if old(out).deep_view().contains(x@) {
            old(out).deep_view()
        } else {
            old(out).deep_view().push(x@)
        },
{
    let mut i: usize = 0;
    while i < out.len()
        invariant
            i <= out.len(),
            forall|j: int| 0 <= j < i ==> out.deep_view()[j] != x@,
        decreases out.len() - i,
    {
        if out[i] == x {
            proof { assert(out.deep_view()[i as int] == x@); }
            return;
        }
        i = i + 1;
    }
    out.push(x);
    proof { assert(out.deep_view() =~= old(out).deep_view().push(x@)); }
}

/// The people set for an event: confirmers, then assignee, then creator
/// (dropped on `create`), deduplicated and order-stable: a role listed
/// twice hears one hint.
pub fn people_of(ev: &TaskChanged) -> (r: Vec<String>)
    ensures r.deep_view() == dedup(raw_people(*ev)),
{
    let mut people: Vec<String> = Vec::new();
    let mut i: usize = 0;
    while i < ev.confirmers.len()
        invariant
            i <= ev.confirmers.len(),
            people.deep_view() == ev.confirmers.deep_view().take(i as int),
        decreases ev.confirmers.len() - i,
    {
        assert(people.deep_view().len() == i);
        assert(people@.len() == i);
        let ghost before = people@;
        people.push(ev.confirmers[i].clone());
        proof {
            assert(before.len() == i);
            assert(people@ == before.push(ev.confirmers@[i as int]));
            assert forall|j: int| 0 <= j < i + 1 implies people.deep_view()[j] == ev.confirmers.deep_view().take(i + 1)[j] by {
                if j < i {
                    assert(people@[j] == before[j]);
                }
            }
            assert(people.deep_view() =~= ev.confirmers.deep_view().take(i + 1));
        }
        i = i + 1;
    }
    proof { assert(ev.confirmers.deep_view().take(i as int) =~= ev.confirmers.deep_view()); }
    match &ev.assignee {
        Some(a) => {
            people.push(a.clone());
        },
        None => {},
    }
    let create = "create";
    proof {
        reveal_strlit("create");
        assert(create@ =~= create_verb());
    }
    match &ev.creator {
        Some(c) => {
            if !str_eq(ev.verb.as_str(), create) {
                people.push(c.clone());
            }
        },
        None => {},
    }
    proof { assert(people.deep_view() =~= raw_people(*ev)); }
    let mut deduped: Vec<String> = Vec::new();
    let mut k: usize = 0;
    while k < people.len()
        invariant
            k <= people.len(),
            deduped.deep_view() == dedup(people.deep_view().take(k as int)),
        decreases people.len() - k,
    {
        proof { assert(people.deep_view().take(k + 1).drop_last() =~= people.deep_view().take(k as int)); }
        push_unique(&mut deduped, people[k].clone());
        k = k + 1;
    }
    proof { assert(people.deep_view().take(k as int) =~= people.deep_view()); }
    deduped
}

/// Keep-last debounce: consecutive events for the same task collapse
/// into the latest; cross-task order is kept.
pub open spec fn collapse(s: Seq<TaskChanged>) -> Seq<TaskChanged>
    decreases s.len(),
{
    if s.len() == 0 {
        Seq::empty()
    } else {
        let c = collapse(s.drop_last());
        if c.len() > 0 && c.last().task_id == s.last().task_id {
            c.update(c.len() - 1, s.last())
        } else {
            c.push(s.last())
        }
    }
}

/// Collapse runs of events for one task into their latest event.
pub fn keep_last_per_task(events: Vec<TaskChanged>) -> (r: Vec<TaskChanged>)
    ensures r@ == collapse(events@),
{
    let ghost orig = events@;
    assert(orig.len() == events.len());
    let mut events = events;
    let mut out: Vec<TaskChanged> = Vec::new();
    let mut k: usize = 0;
    while events.len() > 0
        invariant
            k + events@.len() == orig.len(),
            orig.len() <= usize::MAX,
            events@ == orig.skip(k as int),
            out@ == collapse(orig.take(k as int)),
        decreases events@.len(),
    {
        let ev = events.remove(0);
        proof {
            assert(orig.take(k + 1).drop_last() =~= orig.take(k as int));
            assert(orig.take(k + 1).last() == orig[k as int]);
            assert(orig.skip(k + 1) =~= orig.skip(k as int).remove(0));
        }
        let n = out.len();
        if n > 0 && out[n - 1].task_id == ev.task_id {
            out.set(n - 1, ev);
        } else {
            out.push(ev);
        }
        k = k + 1;
    }
    proof { assert(orig.take(k as int) =~= orig); }
    out
}

/// Law: after the debounce no two neighbouring events name the same
/// task, and the final event of the batch always survives as the last
/// one.
pub proof fn law_collapse_runs(s: Seq<TaskChanged>)
    ensures
        forall|i: int| 0 <= i < collapse(s).len() - 1 ==>
            #[trigger] collapse(s)[i].task_id != collapse(s)[i + 1].task_id,
        s.len() > 0 ==> collapse(s).len() > 0 && collapse(s).last() == s.last(),
        collapse(s).len() <= s.len(),
    decreases s.len(),
{
    if s.len() > 0 {
        law_collapse_runs(s.drop_last());
        let c = collapse(s.drop_last());
        if c.len() > 0 && c.last().task_id == s.last().task_id {
            let u = c.update(c.len() - 1, s.last());
            assert forall|i: int| 0 <= i < u.len() - 1 implies #[trigger] u[i].task_id != u[i + 1].task_id by {
                if i == u.len() - 2 {
                    assert(c[i].task_id != c[i + 1].task_id);
                } else {
                    assert(c[i].task_id != c[i + 1].task_id);
                }
            }
        } else {
            let u = c.push(s.last());
            assert forall|i: int| 0 <= i < u.len() - 1 implies #[trigger] u[i].task_id != u[i + 1].task_id by {
                if i < c.len() - 1 {
                    assert(c[i].task_id != c[i + 1].task_id);
                } else {
                    assert(u[i] == c.last());
                }
            }
        }
    }
}

/// Law: the people set holds no role twice.
pub proof fn law_people_distinct(s: Seq<Seq<char>>)
    ensures dedup(s).no_duplicates(),
    decreases s.len(),
{
    if s.len() > 0 {
        law_people_distinct(s.drop_last());
    }
}

/// One `recv` outcome on the task topic.
pub enum RecvOutcome {
    Event(TaskChanged),
    /// The receiver lagged and `n` events were lost.
    Lagged(u64),
    Closed,
}

/// What the run loop does with one `recv` outcome.
pub enum Flow {
    Wake(TaskChanged),
    Skip,
    Stop,
}

/// Lag is recovery, not death: a lagged receive skips and keeps going;
/// only a closed bus stops the watcher.
pub fn classify(result: RecvOutcome) -> (f: Flow)
    ensures
        match result {
            RecvOutcome::Event(ev) => f == Flow::Wake(ev),
            RecvOutcome::Lagged(_) => f is Skip,
            RecvOutcome::Closed => f is Stop,
        },
{
    match result {
        RecvOutcome::Event(ev) => Flow::Wake(ev),
        RecvOutcome::Lagged(_) => Flow::Skip,
        RecvOutcome::Closed => Flow::Stop,
    }
}

/// The agents a change wakes, in registry order: none for a silent
/// verb, otherwise every agent whose role is in the event's people set.
pub fn wake_targets(registry: &AgentRegistry, ev: &TaskChanged) -> (r: Vec<String>)
    requires registry.wf(),
    ensures
        ev.verb@ == close_verb() ==> r@.len() == 0,
        ev.verb@ != close_verb() ==> r.deep_view() == role_matches(registry.listing(), dedup(raw_people(*ev))),
{
    if is_silent_verb(ev.verb.as_str()) {
        return Vec::new();
    }
    let people = people_of(ev);
    let entries = registry.iter();
    let mut out: Vec<String> = Vec::new();
    let mut i: usize = 0;
    while i < entries.len()
        invariant
            i <= entries.len(),
            out.deep_view() == role_matches(entries@.take(i as int), people.deep_view()),
        decreases entries.len() - i,
    {
        proof { assert(entries@.take(i + 1).drop_last() =~= entries@.take(i as int)); }
        let role = &entries[i].1.identity().config.role;
        let mut hit = false;
        let mut j: usize = 0;
        while j < people.len()
            invariant
                j <= people.len(),
                hit == people.deep_view().take(j as int).contains(role@),
            decreases people.len() - j,
        {
            proof { assert(people.deep_view().take(j + 1) =~= people.deep_view().take(j as int).push(people.deep_view()[j as int])); }
            let ghost prefix = people.deep_view().take(j as int);
            let ghost x = people.deep_view()[j as int];
            proof { assert(x == people@[j as int]@); }
            if people[j] == *role {
                hit = true;
                proof { assert(prefix.push(x)[j as int] == role@); }
            } else {
                proof {
                    if !hit {
                        assert forall|m: int| 0 <= m < j + 1 implies prefix.push(x)[m] != role@ by {
                            if m < j {
                                assert(prefix[m] != role@);
                            }
                        }
                    } else {
                        let w = choose|m: int| 0 <= m < prefix.len() && prefix[m] == role@;
                        assert(prefix.push(x)[w] == role@);
                    }
                }
            }
            j = j + 1;
        }
        proof { assert(people.deep_view().take(j as int) =~= people.deep_view()); }
        if hit {
            out.push(entries[i].0.clone());
            proof {
                assert(out.deep_view() =~= role_matches(entries@.take(i as int), people.deep_view()).push(entries@[i as int].0@));
            }
        }
        i = i + 1;
    }
    proof { assert(entries@.take(i as int) =~= entries@); }
    out
}

/// The ids of `entries` whose role is one of `people`, in order.
pub open spec fn role_matches(entries: Seq<(String, RegistryEntry)>, people: Seq<Seq<char>>) -> Seq<Seq<char>>
    decreases entries.len(),
{
    if entries.len() == 0 {
        Seq::empty()
    } else {
        let rest = role_matches(entries.drop_last(), people);
        if people.contains(entries.last().1.ident().config.role@) {
            rest.push(entries.last().0@)
        } else {
            rest
        }
    }
}

} // verus!
