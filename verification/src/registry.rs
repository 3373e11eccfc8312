//! The agent registry: every live or faulted agent keyed by id, the
//! auth-token index, and the supervisor links (`created_by` upward,
//! `subagent_ids` downward). Authorization helpers walk the supervisor
//! chain with cycle and broken-link detection.
use vstd::prelude::*;
use vstd::string::StringExecFns;
use crate::auth::{ApiError, Identity};
use crate::config::{AgentIdentity, AgentState};
use crate::keyed::{keys_unique, has_key, pairs_map, lemma_lookup, lemma_update, lemma_push, lemma_remove, find_key};

verus! {

/// Runtime fields of a live agent the tagma decides on.
#[derive(Clone, Debug)]
pub struct LiveAgent {
    pub state: AgentState,
    /// Unix seconds of the most recent state transition.
    pub state_since: u64,
    /// SHA-256 of the agent's auth token (the index key for auth lookups).
    pub auth_token_hash: String,
    /// Ephemeral, self-reported current activity.
    pub activity: String,
}

/// A live, running agent: identity, runtime fields, known children.
#[derive(Clone, Debug)]
pub struct AgentEntry {
    pub identity: AgentIdentity,
    pub agent: LiveAgent,
    pub subagent_ids: Vec<String>,
}

/// A placeholder for an agent that could not be brought up.
#[derive(Clone, Debug)]
pub struct FaultedEntry {
    pub identity: AgentIdentity,
    pub subagent_ids: Vec<String>,
    pub reason: String,
    /// Unix seconds when the fault was recorded.
    pub at: u64,
}

/// The registry value: a live agent or a faulted placeholder.
#[derive(Clone, Debug)]
pub enum RegistryEntry {
    Live(AgentEntry),
    Faulted(FaultedEntry),
}

impl RegistryEntry {
    pub open spec fn ident(&self) -> AgentIdentity {
        match self {
            RegistryEntry::Live(e) => e.identity,
            RegistryEntry::Faulted(e) => e.identity,
        }
    }

    /// The supervisor id of this entry.
    pub open spec fn sup(&self) -> Option<Seq<char>> {
        self.ident().config.sup()
    }

    pub open spec fn kids(&self) -> Seq<Seq<char>> {
        match self {
            RegistryEntry::Live(e) => e.subagent_ids.deep_view(),
            RegistryEntry::Faulted(e) => e.subagent_ids.deep_view(),
        }
    }

    pub open spec fn is_root(&self) -> bool {
        self.ident().config.created_by is None
    }

    /// `self` and `other` agree on everything but the children list.
    pub open spec fn same_but_kids(&self, other: &RegistryEntry) -> bool {
        match (self, other) {
            (RegistryEntry::Live(a), RegistryEntry::Live(b)) =>
                a.identity == b.identity && a.agent == b.agent,
            (RegistryEntry::Faulted(a), RegistryEntry::Faulted(b)) =>
                a.identity == b.identity && a.reason == b.reason && a.at == b.at,
            _ => false,
        }
    }

    /// Durable identity, on both variants.
    pub fn identity(&self) -> (r: &AgentIdentity)
        ensures *r == self.ident(),
    {
        match self {
            RegistryEntry::Live(e) => &e.identity,
            RegistryEntry::Faulted(e) => &e.identity,
        }
    }

    /// Durable identity, on both variants, for in-place edits: the entry
    /// afterwards is the entry with the edited identity.
    pub fn identity_mut(&mut self) -> (r: &mut AgentIdentity)
        ensures
            *r == old(self).ident(),
            *final(self) == match *old(self) {
                RegistryEntry::Live(e) => RegistryEntry::Live(AgentEntry { identity: *final(r), ..e }),
                RegistryEntry::Faulted(e) => RegistryEntry::Faulted(FaultedEntry { identity: *final(r), ..e }),
            },
    {
        match self {
            RegistryEntry::Live(e) => &mut e.identity,
            RegistryEntry::Faulted(e) => &mut e.identity,
        }
    }

    /// Direct children, on both variants, for in-place edits.
    pub fn subagent_ids_mut(&mut self) -> (r: &mut Vec<String>)
        ensures
            r.deep_view() == old(self).kids(),
            *final(self) == match *old(self) {
                RegistryEntry::Live(e) => RegistryEntry::Live(AgentEntry { subagent_ids: *final(r), ..e }),
                RegistryEntry::Faulted(e) => RegistryEntry::Faulted(FaultedEntry { subagent_ids: *final(r), ..e }),
            },
    {
        match self {
            RegistryEntry::Live(e) => &mut e.subagent_ids,
            RegistryEntry::Faulted(e) => &mut e.subagent_ids,
        }
    }

    /// The live agent for in-place edits, or `None` for a faulted entry.
    pub fn as_live_mut(&mut self) -> (r: Option<&mut AgentEntry>)
        ensures
            match *old(self) {
                RegistryEntry::Live(e) => r matches Some(x) && *x == e && *final(self) == RegistryEntry::Live(*final(x)),
                RegistryEntry::Faulted(_) => r is None && *final(self) == *old(self),
            },
    {
        match self {
            RegistryEntry::Live(e) => Some(e),
            RegistryEntry::Faulted(_) => None,
        }
    }

    /// Direct children, maintained on both variants.
    pub fn subagent_ids(&self) -> (r: &Vec<String>)
        ensures r.deep_view() == self.kids(),
    {
        match self {
            RegistryEntry::Live(e) => &e.subagent_ids,
            RegistryEntry::Faulted(e) => &e.subagent_ids,
        }
    }

    /// The live agent, or `None` for a faulted entry.
    pub fn as_live(&self) -> (r: Option<&AgentEntry>)
        ensures
            match self {
                RegistryEntry::Live(e) => r == Some(e),
                RegistryEntry::Faulted(_) => r is None,
            },
    {
        match self {
            RegistryEntry::Live(e) => Some(e),
            RegistryEntry::Faulted(_) => None,
        }
    }

    /// The state this entry reports: the live state, or `Faulted`.
    pub fn state_for_summary(&self) -> (s: AgentState)
        ensures
            match self {
                RegistryEntry::Live(e) => s == e.agent.state,
                RegistryEntry::Faulted(_) => s == AgentState::Faulted,
            },
    {
        match self {
            RegistryEntry::Live(e) => e.agent.state,
            RegistryEntry::Faulted(_) => AgentState::Faulted,
        }
    }

    /// Replace the live activity (no effect on a faulted entry).
    pub fn set_activity(&mut self, a: String)
        ensures *final(self) == with_activity(*old(self), a),
    {
        match self {
            RegistryEntry::Live(e) => {
                e.agent.activity = a;
            },
            RegistryEntry::Faulted(_) => {},
        }
    }

    /// Replace the configuration, on both variants.
    pub fn set_config(&mut self, c: crate::config::AgentConfig)
        ensures *final(self) == with_config(*old(self), c),
    {
        match self {
            RegistryEntry::Live(e) => {
                e.identity.config = c;
            },
            RegistryEntry::Faulted(e) => {
                e.identity.config = c;
            },
        }
    }

    /// Append one child id.
    pub fn push_child(&mut self, id: String)
        ensures
            final(self).same_but_kids(old(self)),
            final(self).kids() == old(self).kids().push(id@),
    {
        match self {
            RegistryEntry::Live(e) => {
                e.subagent_ids.push(id);
                proof { assert(e.subagent_ids.deep_view() =~= old(self).kids().push(id@)); }
            },
            RegistryEntry::Faulted(e) => {
                e.subagent_ids.push(id);
                proof { assert(e.subagent_ids.deep_view() =~= old(self).kids().push(id@)); }
            },
        }
    }
}


/// `ids` without any occurrence of `x`, order kept.
pub open spec fn without(ids: Seq<Seq<char>>, x: Seq<char>) -> Seq<Seq<char>>
    decreases ids.len(),
{
    if ids.len() == 0 {
        Seq::empty()
    } else if ids.last() == x {
        without(ids.drop_last(), x)
    } else {
        without(ids.drop_last(), x).push(ids.last())
    }
}

/// A copy of `ids` with every occurrence of `x` removed.
fn strings_without(ids: &Vec<String>, x: &String) -> (r: Vec<String>)
    ensures r.deep_view() == without(ids.deep_view(), x@),
{
    let mut out: Vec<String> = Vec::new();
    let mut i: usize = 0;
    while i < ids.len()
        invariant
            i <= ids.len(),
            out.deep_view() == without(ids.deep_view().take(i as int), x@),
        decreases ids.len() - i,
    {
        proof {
            assert(ids.deep_view().take(i + 1).drop_last() =~= ids.deep_view().take(i as int));
        }
        if ids[i] != *x {
            out.push(ids[i].clone());
            proof {
                assert(out.deep_view() =~= without(ids.deep_view().take(i as int), x@).push(ids.deep_view()[i as int]));
            }
        }
        i = i + 1;
    }
    proof { assert(ids.deep_view().take(ids.len() as int) =~= ids.deep_view()); }
    out
}

impl RegistryEntry {
    /// Drop every occurrence of `id` from the children list.
    pub fn remove_child(&mut self, id: &String)
        ensures
            final(self).same_but_kids(old(self)),
            final(self).kids() == without(old(self).kids(), id@),
    {
        match self {
            RegistryEntry::Live(e) => {
                let kept = strings_without(&e.subagent_ids, id);
                e.subagent_ids = kept;
            },
            RegistryEntry::Faulted(e) => {
                let kept = strings_without(&e.subagent_ids, id);
                e.subagent_ids = kept;
            },
        }
    }
}

} // verus!

verus! {

/// Combined index: agent map, token-hash → id lookup, and the subagent
/// reverse pointers, mutated only through methods that keep them in step.
pub struct AgentRegistry {
    agents: Vec<(String, RegistryEntry)>,
    token_index: Vec<(String, String)>,
}

/// The tokens index as a map from hash to agent id.
pub open spec fn string_pairs_view(m: Map<Seq<char>, String>) -> Map<Seq<char>, Seq<char>> {
    Map::new(|k: Seq<char>| m.contains_key(k), |k: Seq<char>| m[k]@)
}

impl AgentRegistry {
    /// Distinct keys in both vectors.
    pub closed spec fn wf(&self) -> bool {
        keys_unique(self.agents@) && keys_unique(self.token_index@)
    }

    /// The agents, keyed by id.
    pub closed spec fn map(&self) -> Map<Seq<char>, RegistryEntry> {
        pairs_map(self.agents@)
    }

    /// The auth-token index: token hash → agent id.
    pub closed spec fn tokens(&self) -> Map<Seq<char>, Seq<char>> {
        string_pairs_view(pairs_map(self.token_index@))
    }

    /// The entries in registry order.
    pub closed spec fn listing(&self) -> Seq<(String, RegistryEntry)> {
        self.agents@
    }

    pub proof fn lemma_listing(&self)
        requires self.wf(),
        ensures
            keys_unique(self.listing()),
            self.map() == pairs_map(self.listing()),
    {
    }

    /// An empty registry.
    pub fn new() -> (r: AgentRegistry)
        ensures
            r.wf(),
            r.map() == Map::<Seq<char>, RegistryEntry>::empty(),
            r.tokens() == Map::<Seq<char>, Seq<char>>::empty(),
    {
        let r = AgentRegistry { agents: Vec::new(), token_index: Vec::new() };
        proof {
            assert(r.map() =~= Map::<Seq<char>, RegistryEntry>::empty());
            assert(r.tokens() =~= Map::<Seq<char>, Seq<char>>::empty());
        }
        r
    }

    pub fn get(&self, id: &String) -> (r: Option<&RegistryEntry>)
        requires self.wf(),
        ensures
            match r {
                Some(e) => self.map().contains_key(id@) && *e == self.map()[id@],
                None => !self.map().contains_key(id@),
            },
    {
        match find_key(&self.agents, id) {
            Some(i) => {
                proof { lemma_lookup(self.agents@, i as int); }
                Some(&self.agents[i].1)
            },
            None => None,
        }
    }

    /// The entry keyed `id`, for in-place edits; its key and the token
    /// index stay as they are.
    pub fn get_mut(&mut self, id: &String) -> (r: Option<&mut RegistryEntry>)
        requires old(self).wf(),
        ensures
            match r {
                Some(e) => old(self).map().contains_key(id@) && *e == old(self).map()[id@]
                    && final(self).wf()
                    && final(self).map() == old(self).map().insert(id@, *final(e))
                    && final(self).tokens() == old(self).tokens(),
                None => !old(self).map().contains_key(id@) && *final(self) == *old(self),
            },
    {
        match find_key(&self.agents, id) {
            Some(i) => {
                proof { lemma_lookup(self.agents@, i as int); }
                let pair = &mut self.agents[i];
                proof {
                    lemma_update(old(self).agents@, i as int, old(self).agents@[i as int].0, final(pair).1);
                }
                Some(&mut pair.1)
            },
            None => None,
        }
    }

    pub fn contains_key(&self, id: &String) -> (b: bool)
        requires self.wf(),
        ensures b == self.map().contains_key(id@),
    {
        find_key(&self.agents, id).is_some()
    }

    pub fn len(&self) -> (n: usize)
        requires self.wf(),
        ensures n == self.map().dom().len(),
    {
        proof { self.lemma_len(); }
        self.agents.len()
    }

    proof fn lemma_len(&self)
        requires self.wf(),
        ensures self.map().dom().len() == self.agents@.len(),
    {
        lemma_len_seq(self.agents@);
    }

    /// Every entry, in registry order.
    pub fn iter(&self) -> (r: &Vec<(String, RegistryEntry)>)
        ensures r@ == self.listing(),
    {
        &self.agents
    }

    /// The id the token hash authenticates, if any.
    pub fn get_agent_id_by_token(&self, hash: &String) -> (r: Option<&String>)
        requires self.wf(),
        ensures
            match r {
                Some(id) => self.tokens().contains_key(hash@) && id@ == self.tokens()[hash@],
                None => !self.tokens().contains_key(hash@),
            },
    {
        match find_key(&self.token_index, hash) {
            Some(i) => {
                proof { lemma_lookup(self.token_index@, i as int); }
                Some(&self.token_index[i].1)
            },
            None => None,
        }
    }
}

impl AgentRegistry {
    /// Replace the configuration of the entry keyed `id`; `false` (and
    /// nothing changed) when there is none. The token index and the
    /// supervisor links are untouched: callers change neither the
    /// creator nor the token through this.
    pub fn set_config(&mut self, id: &String, c: crate::config::AgentConfig) -> (found: bool)
        requires old(self).wf(),
        ensures
            final(self).wf(),
            final(self).tokens() == old(self).tokens(),
            found == old(self).map().contains_key(id@),
            found ==> final(self).map() == old(self).map().insert(id@, with_config(old(self).map()[id@], c)),
            found ==> listing_updated(final(self).listing(), old(self).listing(), id@, with_config(old(self).map()[id@], c)),
            !found ==> final(self).map() == old(self).map() && final(self).listing() == old(self).listing(),
    {
        match find_key(&self.agents, id) {
            Some(i) => {
                let ghost before = self.agents@;
                proof { lemma_lookup(before, i as int); }
                self.agents[i].1.set_config(c);
                proof {
                    lemma_update(before, i as int, before[i as int].0, self.agents@[i as int].1);
                    assert(self.agents@ == before.update(i as int, (before[i as int].0, self.agents@[i as int].1)));
                    assert forall|j: int| 0 <= j < before.len() implies (#[trigger] self.agents@[j]).0 == before[j].0
                        && self.agents@[j].1 == if before[j].0@ == id@ { with_config(pairs_map(before)[id@], c) } else { before[j].1 } by {
                        if j != i && before[j].0@ == id@ {
                            assert(before[i as int].0@ == before[j].0@);
                        }
                    }
                }
                true
            },
            None => false,
        }
    }
}

impl AgentRegistry {
    /// Pre-reserve a subagent slot: push `child` onto the supervisor's
    /// children so concurrent spawns see the updated count. `404` without
    /// the supervisor; `503` when it already holds `max` children.
    pub fn reserve_subagent_slot(&mut self, sup: &String, child: String, max: usize) -> (r: Result<(), ApiError>)
        requires old(self).wf(),
        ensures
            final(self).wf(),
            final(self).tokens() == old(self).tokens(),
            !old(self).map().contains_key(sup@) ==> (r matches Err(e) && e.status == 404
                && e.message@ == "supervisor not found"@) && final(self).map() == old(self).map(),
            old(self).map().contains_key(sup@) && old(self).map()[sup@].kids().len() >= max ==> (r matches Err(e)
                && e.status == 503 && e.message@ == "supervisor has "@ + crate::fmt::decimal(old(self).map()[sup@].kids().len())
                    + "/"@ + crate::fmt::decimal(max as nat) + " subagents, cannot create more"@)
                && final(self).map() == old(self).map(),
            old(self).map().contains_key(sup@) && old(self).map()[sup@].kids().len() < max ==> r is Ok
                && final(self).map().dom() == old(self).map().dom()
                && child_pushed(final(self).map()[sup@], old(self).map()[sup@], child@)
                && forall|k: Seq<char>| #[trigger] final(self).map().contains_key(k) && k != sup@
                    ==> final(self).map()[k] == old(self).map()[k],
    {
        let n = match self.get(sup) {
            None => return Err(ApiError::not_found("supervisor not found".to_string())),
            Some(e) => e.subagent_ids().len(),
        };
        if n >= max {
            let shown = crate::fmt::display_usize(n);
            let limit = crate::fmt::display_usize(max);
            let mut m = "supervisor has ".to_string();
            m.append(shown.as_str());
            m.append("/");
            m.append(limit.as_str());
            m.append(" subagents, cannot create more");
            return Err(ApiError::unavailable(m));
        }
        self.link_child(sup, child);
        Ok(())
    }

    /// Record a live agent's self-reported activity; faulted entries
    /// (and unknown ids) are left untouched and `false` comes back.
    pub fn set_activity(&mut self, id: &String, activity: String) -> (live: bool)
        requires old(self).wf(),
        ensures
            final(self).wf(),
            final(self).tokens() == old(self).tokens(),
            live == (old(self).map().contains_key(id@) && old(self).map()[id@] is Live),
            live ==> final(self).map() == old(self).map().insert(id@, with_activity(old(self).map()[id@], activity)),
            !live ==> final(self).map() == old(self).map(),
    {
        match find_key(&self.agents, id) {
            Some(i) => {
                let ghost before = self.agents@;
                proof { lemma_lookup(before, i as int); }
                let is_live = self.agents[i].1.as_live().is_some();
                if !is_live {
                    return false;
                }
                self.agents[i].1.set_activity(activity);
                proof {
                    lemma_update(before, i as int, before[i as int].0, self.agents@[i as int].1);
                    assert(self.agents@ == before.update(i as int, (before[i as int].0, self.agents@[i as int].1)));
                }
                true
            },
            None => false,
        }
    }
}

/// A pair vector with distinct keys has as many keys as pairs.
pub proof fn lemma_len_seq<V>(s: Seq<(String, V)>)
    requires keys_unique(s),
    ensures pairs_map(s).dom().len() == s.len(), pairs_map(s).dom().finite(),
    decreases s.len(),
{
    if s.len() == 0 {
        assert(pairs_map(s).dom() =~= Set::<Seq<char>>::empty());
    } else {
        let t = s.drop_last();
        assert(keys_unique(t));
        lemma_len_seq(t);
        assert(t.push(s.last()) =~= s);
        assert(!has_key(t, s.last().0@)) by {
            if has_key(t, s.last().0@) {
                let a = choose|a: int| 0 <= a < t.len() && t[a].0@ == s.last().0@;
                assert(s[a].0@ != s[s.len() - 1].0@);
            }
        }
        lemma_push(t, s.last().0, s.last().1);
    }
}

} // verus!

verus! {

/// `new` is `old` with child `c` appended, all else equal.
pub open spec fn child_pushed(new: RegistryEntry, old: RegistryEntry, c: Seq<char>) -> bool {
    new.same_but_kids(&old) && new.kids() == old.kids().push(c)
}

/// `new` is `old` with every occurrence of child `c` dropped.
pub open spec fn child_dropped(new: RegistryEntry, old: RegistryEntry, c: Seq<char>) -> bool {
    new.same_but_kids(&old) && new.kids() == without(old.kids(), c)
}

/// The auth-token hash of a live entry; `None` for a faulted one.
pub open spec fn live_token(e: RegistryEntry) -> Option<Seq<char>> {
    match e {
        RegistryEntry::Live(l) => Some(l.agent.auth_token_hash@),
        RegistryEntry::Faulted(_) => None,
    }
}

impl AgentRegistry {
    fn token_insert(&mut self, hash: String, id: String)
        requires old(self).wf(),
        ensures
            final(self).wf(),
            final(self).map() == old(self).map(),
            final(self).listing() == old(self).listing(),
            final(self).tokens() == old(self).tokens().insert(hash@, id@),
    {
        let ghost ids = id@;
        let ghost h = hash@;
        match find_key(&self.token_index, &hash) {
            Some(i) => {
                proof { lemma_update(self.token_index@, i as int, hash, id); }
                self.token_index.set(i, (hash, id));
            },
            None => {
                proof { lemma_push(self.token_index@, hash, id); }
                self.token_index.push((hash, id));
            },
        }
        proof {
            assert(self.tokens() =~= old(self).tokens().insert(h, ids));
        }
    }

    fn token_remove(&mut self, hash: &String)
        requires old(self).wf(),
        ensures
            final(self).wf(),
            final(self).map() == old(self).map(),
            final(self).listing() == old(self).listing(),
            final(self).tokens() == old(self).tokens().remove(hash@),
    {
        match find_key(&self.token_index, hash) {
            Some(i) => {
                proof { lemma_remove(self.token_index@, i as int); }
                self.token_index.remove(i);
            },
            None => {},
        }
        proof {
            assert(self.tokens() =~= old(self).tokens().remove(hash@));
        }
    }

    /// Insert or replace the entry keyed `id`.
    fn agent_put(&mut self, id: String, entry: RegistryEntry)
        requires old(self).wf(),
        ensures
            final(self).wf(),
            final(self).map() == old(self).map().insert(id@, entry),
            final(self).tokens() == old(self).tokens(),
    {
        match find_key(&self.agents, &id) {
            Some(i) => {
                proof { lemma_update(self.agents@, i as int, id, entry); }
                self.agents.set(i, (id, entry));
            },
            None => {
                proof { lemma_push(self.agents@, id, entry); }
                self.agents.push((id, entry));
            },
        }
    }

    /// Append `child` to the entry keyed `sup`, if present.
    fn link_child(&mut self, sup: &String, child: String)
        requires old(self).wf(),
        ensures
            final(self).wf(),
            final(self).tokens() == old(self).tokens(),
            final(self).map().dom() == old(self).map().dom(),
            forall|k: Seq<char>| #[trigger] final(self).map().contains_key(k) ==>
                if k == sup@ {
                    child_pushed(final(self).map()[k], old(self).map()[k], child@)
                } else {
                    final(self).map()[k] == old(self).map()[k]
                },
    {
        match find_key(&self.agents, sup) {
            Some(i) => {
                let ghost c = child@;
                let ghost before = self.agents@;
                self.agents[i].1.push_child(child);
                proof {
                    lemma_update(before, i as int, before[i as int].0, self.agents@[i as int].1);
                    assert(self.agents@ == before.update(i as int, (before[i as int].0, self.agents@[i as int].1)));
                    lemma_lookup(before, i as int);
                }
            },
            None => {},
        }
    }

    /// Drop every occurrence of `child` from the entry keyed `sup`, if present.
    fn unlink_child(&mut self, sup: &String, child: &String)
        requires old(self).wf(),
        ensures
            final(self).wf(),
            final(self).tokens() == old(self).tokens(),
            final(self).map().dom() == old(self).map().dom(),
            forall|k: Seq<char>| #[trigger] final(self).map().contains_key(k) ==>
                if k == sup@ {
                    child_dropped(final(self).map()[k], old(self).map()[k], child@)
                } else {
                    final(self).map()[k] == old(self).map()[k]
                },
    {
        match find_key(&self.agents, sup) {
            Some(i) => {
                let ghost before = self.agents@;
                self.agents[i].1.remove_child(child);
                proof {
                    lemma_update(before, i as int, before[i as int].0, self.agents@[i as int].1);
                    assert(self.agents@ == before.update(i as int, (before[i as int].0, self.agents@[i as int].1)));
                    lemma_lookup(before, i as int);
                }
            },
            None => {},
        }
    }
}

} // verus!

verus! {

/// `new` is `old` after registering `entry` under `id`: the entry's
/// supervisor (if registered) gains `id` as a child, then the entry is
/// stored (replacing any previous entry under `id`).
pub open spec fn registered_as(
    new: Map<Seq<char>, RegistryEntry>,
    old: Map<Seq<char>, RegistryEntry>,
    id: Seq<char>,
    entry: RegistryEntry,
    link: bool,
) -> bool {
    &&& new.dom() == old.dom().insert(id)
    &&& new[id] == entry
    &&& forall|k: Seq<char>| #[trigger] new.contains_key(k) && k != id ==>
            if link && entry.sup() == Some(k) {
                child_pushed(new[k], old[k], id)
            } else {
                new[k] == old[k]
            }
}

/// `new` is `old` after unregistering `id` (whose entry was `gone`):
/// the entry is removed and its supervisor (if registered) drops `id`
/// from its children.
pub open spec fn unregistered_as(
    new: Map<Seq<char>, RegistryEntry>,
    old: Map<Seq<char>, RegistryEntry>,
    id: Seq<char>,
    gone: RegistryEntry,
) -> bool {
    &&& new.dom() == old.dom().remove(id)
    &&& forall|k: Seq<char>| #[trigger] new.contains_key(k) ==>
            if gone.sup() == Some(k) {
                child_dropped(new[k], old[k], id)
            } else {
                new[k] == old[k]
            }
}

/// The token index after registering `entry` under `id`.
pub open spec fn tokens_after_register(
    old: Map<Seq<char>, Seq<char>>,
    id: Seq<char>,
    entry: RegistryEntry,
) -> Map<Seq<char>, Seq<char>> {
    match live_token(entry) {
        Some(h) => old.insert(h, id),
        None => old,
    }
}

/// The token index after removing `gone`.
pub open spec fn tokens_after_unregister(
    old: Map<Seq<char>, Seq<char>>,
    gone: RegistryEntry,
) -> Map<Seq<char>, Seq<char>> {
    match live_token(gone) {
        Some(h) => old.remove(h),
        None => old,
    }
}

/// Some root entry is registered.
pub open spec fn has_root(m: Map<Seq<char>, RegistryEntry>) -> bool {
    exists|k: Seq<char>| #[trigger] m.contains_key(k) && m[k].is_root()
}

/// `e` with its live activity replaced by `a` (a faulted entry has none).
pub open spec fn with_activity(e: RegistryEntry, a: String) -> RegistryEntry {
    match e {
        RegistryEntry::Live(x) => RegistryEntry::Live(AgentEntry { agent: LiveAgent { activity: a, ..x.agent }, ..x }),
        RegistryEntry::Faulted(x) => RegistryEntry::Faulted(x),
    }
}

/// `e` with its configuration replaced by `c`.
pub open spec fn with_config(e: RegistryEntry, c: crate::config::AgentConfig) -> RegistryEntry {
    match e {
        RegistryEntry::Live(x) => RegistryEntry::Live(AgentEntry {
            identity: AgentIdentity { config: c, ..x.identity },
            ..x
        }),
        RegistryEntry::Faulted(x) => RegistryEntry::Faulted(FaultedEntry {
            identity: AgentIdentity { config: c, ..x.identity },
            ..x
        }),
    }
}

/// `new` is `old` with the entry keyed `id` replaced by `e`, in place.
pub open spec fn listing_updated(
    new: Seq<(String, RegistryEntry)>,
    old: Seq<(String, RegistryEntry)>,
    id: Seq<char>,
    e: RegistryEntry,
) -> bool {
    &&& new.len() == old.len()
    &&& forall|j: int| 0 <= j < old.len() ==> (#[trigger] new[j]).0 == old[j].0
        && new[j].1 == if old[j].0@ == id { e } else { old[j].1 }
}

/// The index of the first root in a listing, or -1.
pub open spec fn first_root(l: Seq<(String, RegistryEntry)>) -> int
    decreases l.len(),
{
    if l.len() == 0 {
        -1
    } else {
        let r = first_root(l.drop_last());
        if r >= 0 {
            r
        } else if l.last().1.is_root() {
            l.len() - 1
        } else {
            -1
        }
    }
}

pub proof fn lemma_first_root(l: Seq<(String, RegistryEntry)>)
    ensures
        -1 <= first_root(l) < l.len(),
        first_root(l) >= 0 ==> l[first_root(l)].1.is_root(),
        forall|j: int| 0 <= j < l.len() && (first_root(l) < 0 || j < first_root(l)) ==> !(#[trigger] l[j]).1.is_root(),
    decreases l.len(),
{
    if l.len() > 0 {
        lemma_first_root(l.drop_last());
        assert forall|j: int| 0 <= j < l.len() && (first_root(l) < 0 || j < first_root(l)) implies !(#[trigger] l[j]).1.is_root() by {
            if j < l.len() - 1 {
                assert(l.drop_last()[j] == l[j]);
            }
        }
    }
}

/// A root found in a prefix is the first root of the whole listing.
pub proof fn lemma_first_root_prefix(l: Seq<(String, RegistryEntry)>, k: int)
    requires
        0 <= k <= l.len(),
        first_root(l.take(k)) >= 0,
    ensures
        first_root(l) == first_root(l.take(k)),
    decreases l.len() - k,
{
    if k < l.len() {
        assert(l.take(k + 1).drop_last() =~= l.take(k));
        lemma_first_root_prefix(l, k + 1);
    } else {
        assert(l.take(k) =~= l);
    }
}

/// At most one registered entry is a root.
pub open spec fn at_most_one_root(m: Map<Seq<char>, RegistryEntry>) -> bool {
    forall|a: Seq<char>, b: Seq<char>|
        m.contains_key(a) && m.contains_key(b) && #[trigger] m[a].is_root() && #[trigger] m[b].is_root()
            ==> a == b
}

impl AgentRegistry {
    /// Insert an entry, link it under its supervisor (when registered),
    /// and index the token hash of a live entry. Faulted entries are
    /// never token-indexed.
    pub fn register(&mut self, id: String, entry: RegistryEntry)
        requires old(self).wf(),
        ensures
            final(self).wf(),
            registered_as(final(self).map(), old(self).map(), id@, entry, true),
            final(self).tokens() == tokens_after_register(old(self).tokens(), id@, entry),
    {
        let ghost m0 = self.map();
        match &entry.identity().config.created_by {
            Some(sup) => {
                let s = sup.clone();
                self.link_child(&s, id.clone());
            },
            None => {},
        }
        let ghost m1 = self.map();
        match &entry {
            RegistryEntry::Live(live) => {
                self.token_insert(live.agent.auth_token_hash.clone(), id.clone());
            },
            RegistryEntry::Faulted(_) => {},
        }
        self.agent_put(id, entry);
    }

    /// Like [`Self::register`], without the supervisor link (the caller
    /// pre-reserved the child slot).
    pub fn register_no_subagent_push(&mut self, id: String, entry: RegistryEntry)
        requires old(self).wf(),
        ensures
            final(self).wf(),
            registered_as(final(self).map(), old(self).map(), id@, entry, false),
            final(self).tokens() == tokens_after_register(old(self).tokens(), id@, entry),
    {
        match &entry {
            RegistryEntry::Live(live) => {
                self.token_insert(live.agent.auth_token_hash.clone(), id.clone());
            },
            RegistryEntry::Faulted(_) => {},
        }
        self.agent_put(id, entry);
    }

    /// Remove an entry, unindex its token hash (live only), and drop it
    /// from its supervisor's children. `None` when `id` is unknown.
    pub fn unregister(&mut self, id: &String) -> (r: Option<RegistryEntry>)
        requires old(self).wf(),
        ensures
            final(self).wf(),
            match r {
                None => !old(self).map().contains_key(id@)
                    && final(self).map() == old(self).map()
                    && final(self).tokens() == old(self).tokens(),
                Some(gone) => old(self).map().contains_key(id@)
                    && gone == old(self).map()[id@]
                    && unregistered_as(final(self).map(), old(self).map(), id@, gone)
                    && final(self).tokens() == tokens_after_unregister(old(self).tokens(), gone),
            },
    {
        let i = match find_key(&self.agents, id) {
            Some(i) => i,
            None => return None,
        };
        proof {
            lemma_lookup(self.agents@, i as int);
            lemma_remove(self.agents@, i as int);
        }
        let (_, entry) = self.agents.remove(i);
        match &entry {
            RegistryEntry::Live(live) => {
                self.token_remove(&live.agent.auth_token_hash);
            },
            RegistryEntry::Faulted(_) => {},
        }
        match &entry.identity().config.created_by {
            Some(sup) => {
                let s = sup.clone();
                self.unlink_child(&s, id);
            },
            None => {},
        }
        Some(entry)
    }

    /// Remove and return every entry (registry order), clearing the
    /// token index.
    pub fn drain(&mut self) -> (r: Vec<(String, RegistryEntry)>)
        requires old(self).wf(),
        ensures
            final(self).wf(),
            r@ == old(self).listing(),
            final(self).map() == Map::<Seq<char>, RegistryEntry>::empty(),
            final(self).tokens() == Map::<Seq<char>, Seq<char>>::empty(),
    {
        let mut out: Vec<(String, RegistryEntry)> = Vec::new();
        std::mem::swap(&mut out, &mut self.agents);
        self.token_index = Vec::new();
        proof {
            assert(self.map() =~= Map::<Seq<char>, RegistryEntry>::empty());
            assert(self.tokens() =~= Map::<Seq<char>, Seq<char>>::empty());
        }
        out
    }

    /// The registered root (`created_by` is `None`), live or faulted;
    /// `None` before one exists. The first root in registry order when
    /// (against the invariant) several are registered.
    pub fn root_agent(&self) -> (r: Option<(&String, &RegistryEntry)>)
        requires self.wf(),
        ensures
            match r {
                Some((k, e)) => self.map().contains_key(k@) && self.map()[k@] == *e && e.is_root()
                    && first_root(self.listing()) >= 0
                    && self.listing()[first_root(self.listing())].0 == *k
                    && self.listing()[first_root(self.listing())].1 == *e,
                None => !has_root(self.map()) && first_root(self.listing()) < 0,
            },
    {
        let mut i: usize = 0;
        while i < self.agents.len()
            invariant
                self.wf(),
                i <= self.agents@.len(),
                forall|j: int| 0 <= j < i ==> !(#[trigger] self.agents@[j]).1.is_root(),
                first_root(self.agents@.take(i as int)) < 0,
            decreases self.agents@.len() - i,
        {
            proof { assert(self.agents@.take(i + 1).drop_last() =~= self.agents@.take(i as int)); }
            if self.agents[i].1.identity().config.is_root() {
                proof {
                    lemma_lookup(self.agents@, i as int);
                    lemma_first_root_prefix(self.agents@, i as int + 1);
                }
                return Some((&self.agents[i].0, &self.agents[i].1));
            }
            i = i + 1;
        }
        proof {
            assert(self.agents@.take(i as int) =~= self.agents@);
            if has_root(self.map()) {
                let k = choose|k: Seq<char>| #[trigger] self.map().contains_key(k) && self.map()[k].is_root();
                let j = choose|j: int| 0 <= j < self.agents@.len() && self.agents@[j].0@ == k;
                lemma_lookup(self.agents@, j);
                assert(!self.agents@[j].1.is_root());
            }
        }
        None
    }

    /// Insert the tagma's single root. Refused (`500`) for an entry that
    /// has a supervisor and (`409`) when a root already exists.
    pub fn register_root(&mut self, id: String, entry: RegistryEntry) -> (r: Result<(), ApiError>)
        requires old(self).wf(),
        ensures
            final(self).wf(),
            !entry.is_root() ==> r is Err && r->Err_0.status == 500
                && r->Err_0.message@ == "register_root: entry is not a root (created_by is set)"@
                && final(self).map() == old(self).map() && final(self).tokens() == old(self).tokens(),
            entry.is_root() && has_root(old(self).map()) ==> r is Err && r->Err_0.status == 409
                && r->Err_0.message@ == "a root agent already exists; the tagma owns exactly one root"@
                && final(self).map() == old(self).map() && final(self).tokens() == old(self).tokens(),
            entry.is_root() && !has_root(old(self).map()) ==> r is Ok
                && registered_as(final(self).map(), old(self).map(), id@, entry, true)
                && final(self).tokens() == tokens_after_register(old(self).tokens(), id@, entry),
    {
        if entry.identity().config.created_by.is_some() {
            return Err(ApiError::internal(
                "register_root: entry is not a root (created_by is set)".to_string(),
            ));
        }
        if self.root_agent().is_some() {
            return Err(ApiError::conflict(
                "a root agent already exists; the tagma owns exactly one root".to_string(),
            ));
        }
        self.register(id, entry);
        Ok(())
    }
}

} // verus!

verus! {

/// The outcome of walking the `created_by` chain.
pub enum ChainWalk {
    /// The ids from the start up to and including the root.
    Done(Seq<Seq<char>>),
    /// An id repeated before a root was reached.
    Cycle,
    /// An id on the way has no registry entry.
    Broken,
}

/// One step of the supervisor walk from `cur`, having visited `visited`.
/// `fuel` only bounds the recursion: a walk over a registry of `n`
/// entries never needs more than `n + 1` steps (see `chain_of`).
pub open spec fn walk(
    m: Map<Seq<char>, RegistryEntry>,
    cur: Seq<char>,
    visited: Seq<Seq<char>>,
    fuel: nat,
) -> ChainWalk
    decreases fuel,
{
    if fuel == 0 {
        ChainWalk::Cycle
    } else if visited.contains(cur) {
        ChainWalk::Cycle
    } else if !m.contains_key(cur) {
        ChainWalk::Broken
    } else {
        match m[cur].sup() {
            None => ChainWalk::Done(visited.push(cur)),
            Some(s) => walk(m, s, visited.push(cur), (fuel - 1) as nat),
        }
    }
}

/// The supervisor chain `[start, ..., root]` of `start`.
pub open spec fn chain_of(m: Map<Seq<char>, RegistryEntry>, start: Seq<char>) -> ChainWalk {
    walk(m, start, Seq::empty(), m.dom().len() + 1)
}

/// `v` holds `x`.
fn contains_str(v: &Vec<String>, x: &String) -> (b: bool)
    ensures b == v.deep_view().contains(x@),
{
    let mut i: usize = 0;
    while i < v.len()
        invariant
            i <= v.len(),
            forall|j: int| 0 <= j < i ==> v.deep_view()[j] != x@,
        decreases v.len() - i,
    {
        if v[i] == *x {
            proof { assert(v.deep_view()[i as int] == x@); }
            return true;
        }
        i = i + 1;
    }
    false
}

/// `x` occurs in `s` after its first position.
pub open spec fn tail_has(s: Seq<Seq<char>>, x: Seq<char>) -> bool {
    exists|j: int| 1 <= j < s.len() && s[j] == x
}

/// `v[1..]` holds `x`.
fn tail_contains_str(v: &Vec<String>, x: &String) -> (b: bool)
    ensures b == tail_has(v.deep_view(), x@),
{
    let mut i: usize = 1;
    while i < v.len()
        invariant
            1 <= i,
            forall|j: int| 1 <= j < i && j < v.len() ==> v.deep_view()[j] != x@,
        decreases v.len() - i,
    {
        if v[i] == *x {
            proof { assert(v.deep_view()[i as int] == x@); }
            return true;
        }
        i = i + 1;
    }
    false
}

/// A duplicate-free sequence of keys of a finite map is no longer than
/// the map.
proof fn lemma_distinct_keys_bounded(s: Seq<Seq<char>>, m: Map<Seq<char>, RegistryEntry>)
    requires
        s.no_duplicates(),
        m.dom().finite(),
        forall|i: int| 0 <= i < s.len() ==> m.contains_key(#[trigger] s[i]),
    ensures
        s.len() <= m.dom().len(),
{
    s.unique_seq_to_set();
    assert(s.to_set().subset_of(m.dom()));
    vstd::set_lib::lemma_len_subset(s.to_set(), m.dom());
}

pub open spec fn circular_msg() -> Seq<char> {
    "circular supervisor chain"@
}

pub open spec fn broken_msg() -> Seq<char> {
    "broken supervisor chain"@
}

/// The error a failed chain walk is reported with.
pub open spec fn chain_error_ok(w: ChainWalk, e: ApiError) -> bool {
    match w {
        ChainWalk::Cycle => e.status == 403 && e.message@ == circular_msg(),
        ChainWalk::Broken => e.status == 403 && e.message@ == broken_msg(),
        ChainWalk::Done(_) => false,
    }
}

impl AgentRegistry {
    /// The `created_by` chain `[start, ..., root]` as owned ids, with
    /// cycle and broken-link detection (`403` either way).
    pub fn supervisor_chain_ids(&self, start: &String) -> (r: Result<Vec<String>, ApiError>)
        requires self.wf(),
        ensures
            match chain_of(self.map(), start@) {
                ChainWalk::Done(c) => r is Ok && r->Ok_0.deep_view() == c,
                w => r is Err && chain_error_ok(w, r->Err_0),
            },
    {
        let ghost m = self.map();
        let ghost n: nat = m.dom().len();
        proof { lemma_len_seq(self.agents@); }
        let mut ids: Vec<String> = Vec::new();
        let mut current = start.clone();
        proof { assert(ids.deep_view() =~= Seq::<Seq<char>>::empty()); }
        loop
            invariant
                self.wf(),
                m == self.map(),
                n == m.dom().len(),
                m.dom().finite(),
                ids.len() <= n,
                ids.deep_view().no_duplicates(),
                forall|i: int| 0 <= i < ids.len() ==> m.contains_key(#[trigger] ids.deep_view()[i]),
                walk(m, current@, ids.deep_view(), (n + 1 - ids.len()) as nat) == chain_of(m, start@),
            decreases n - ids.len(),
        {
            if contains_str(&ids, &current) {
                return Err(ApiError::forbidden("circular supervisor chain".to_string()));
            }
            let entry = match self.get(&current) {
                Some(e) => e,
                None => return Err(ApiError::forbidden("broken supervisor chain".to_string())),
            };
            let ghost before = ids.deep_view();
            ids.push(current.clone());
            proof {
                assert(ids.deep_view() =~= before.push(current@));
                assert forall|i: int, j: int| 0 <= i < j < ids.deep_view().len()
                    implies ids.deep_view()[i] != ids.deep_view()[j] by {
                    if j == before.len() {
                        assert(before[i] != current@);
                    }
                }
                lemma_distinct_keys_bounded(ids.deep_view(), m);
            }
            match &entry.identity().config.created_by {
                Some(s) => {
                    current = s.clone();
                },
                None => {
                    return Ok(ids);
                },
            }
        }
    }

    /// The registry entries along the `created_by` chain of `start`.
    pub fn walk_supervisor_chain(&self, start: &String) -> (r: Result<Vec<&RegistryEntry>, ApiError>)
        requires self.wf(),
        ensures
            match chain_of(self.map(), start@) {
                ChainWalk::Done(c) => r is Ok && r->Ok_0.len() == c.len()
                    && forall|i: int| 0 <= i < c.len() ==> self.map().contains_key(c[i])
                        && *(#[trigger] r->Ok_0@[i]) == self.map()[c[i]],
                w => r is Err && chain_error_ok(w, r->Err_0),
            },
    {
        let ids = self.supervisor_chain_ids(start)?;
        proof { lemma_walk_done(self.map(), start@, Seq::empty(), self.map().dom().len() + 1); }
        let mut out: Vec<&RegistryEntry> = Vec::new();
        let mut i: usize = 0;
        while i < ids.len()
            invariant
                self.wf(),
                i <= ids.len(),
                out.len() == i,
                chain_of(self.map(), start@) == ChainWalk::Done(ids.deep_view()),
                forall|j: int| 0 <= j < ids.len() ==> self.map().contains_key(#[trigger] ids.deep_view()[j]),
                forall|j: int| 0 <= j < i ==> *(#[trigger] out@[j]) == self.map()[ids.deep_view()[j]],
            decreases ids.len() - i,
        {
            let e = match self.get(&ids[i]) {
                Some(e) => e,
                None => {
                    proof { assert(self.map().contains_key(ids.deep_view()[i as int])); }
                    return Err(ApiError::forbidden("broken supervisor chain".to_string()));
                },
            };
            out.push(e);
            i = i + 1;
        }
        Ok(out)
    }
}

/// A finished walk lists distinct registered ids, each the supervisor
/// of the one before, ending at a root.
pub proof fn lemma_walk_done(
    m: Map<Seq<char>, RegistryEntry>,
    cur: Seq<char>,
    visited: Seq<Seq<char>>,
    fuel: nat,
)
    requires
        forall|i: int| 0 <= i < visited.len() ==> m.contains_key(#[trigger] visited[i]),
        forall|i: int| 0 <= i < visited.len() - 1 ==> m[#[trigger] visited[i]].sup() == Some(visited[i + 1]),
        visited.len() > 0 ==> m[visited.last()].sup() == Some(cur),
    ensures
        walk(m, cur, visited, fuel) matches ChainWalk::Done(c) ==> {
            &&& c.len() > visited.len()
            &&& c.subrange(0, visited.len() as int) == visited
            &&& c[visited.len() as int] == cur
            &&& forall|i: int| 0 <= i < c.len() ==> m.contains_key(#[trigger] c[i])
            &&& forall|i: int| 0 <= i < c.len() - 1 ==> m[#[trigger] c[i]].sup() == Some(c[i + 1])
            &&& m[c.last()].sup() is None
        },
    decreases fuel,
{
    if fuel == 0 || visited.contains(cur) || !m.contains_key(cur) {
    } else {
        let v2 = visited.push(cur);
        match m[cur].sup() {
            None => {
                assert forall|i: int| 0 <= i < v2.len() - 1 implies m[#[trigger] v2[i]].sup() == Some(v2[i + 1]) by {
                    if i == visited.len() - 1 {
                        assert(v2[i] == visited.last());
                    }
                }
                assert(v2.subrange(0, visited.len() as int) =~= visited);
            },
            Some(s) => {
                assert forall|i: int| 0 <= i < v2.len() - 1 implies m[#[trigger] v2[i]].sup() == Some(v2[i + 1]) by {
                    if i == visited.len() - 1 {
                        assert(v2[i] == visited.last());
                    }
                }
                lemma_walk_done(m, s, v2, (fuel - 1) as nat);
                if let ChainWalk::Done(c) = walk(m, s, v2, (fuel - 1) as nat) {
                    assert(c.subrange(0, visited.len() as int) =~= c.subrange(0, v2.len() as int).subrange(0, visited.len() as int));
                    assert(c.subrange(0, v2.len() as int)[visited.len() as int] == cur);
                }
            },
        }
    }
}

} // verus!

verus! {

/// How a message sender relates to its receiver. Informational only:
/// it never gates authorization.
#[derive(Clone, Copy, Debug, PartialEq, Eq, Structural)]
pub enum SenderRelation {
    /// The operator token (no sender agent).
    Operator,
    /// The receiver itself.
    Same,
    /// A strict ancestor of the receiver.
    Superior,
    /// A strict descendant of the receiver.
    Subordinate,
    /// Neither, with both chains intact.
    Peer,
    /// Neither, and at least one chain walk failed.
    Unknown,
}

/// The relation of `sender` (`None`: the operator) to `receiver`.
pub open spec fn relation_spec(
    m: Map<Seq<char>, RegistryEntry>,
    sender: Option<Seq<char>>,
    receiver: Seq<char>,
) -> SenderRelation {
    match sender {
        None => SenderRelation::Operator,
        Some(s) => {
            if s == receiver {
                SenderRelation::Same
            } else {
                let rc = chain_of(m, receiver);
                let sc = chain_of(m, s);
                if rc matches ChainWalk::Done(c) && tail_has(c, s) {
                    SenderRelation::Superior
                } else if sc matches ChainWalk::Done(c) && tail_has(c, receiver) {
                    SenderRelation::Subordinate
                } else if !(rc is Done) || !(sc is Done) {
                    SenderRelation::Unknown
                } else {
                    SenderRelation::Peer
                }
            }
        },
    }
}

/// Whether some entry on chain `c` names `caller` as its supervisor.
pub open spec fn supervised_on_chain(
    m: Map<Seq<char>, RegistryEntry>,
    c: Seq<Seq<char>>,
    caller: Seq<char>,
) -> bool {
    exists|i: int| 0 <= i < c.len() && #[trigger] m[c[i]].sup() == Some(caller)
}

pub open spec fn not_authorized_msg() -> Seq<char> {
    "not authorized to manage this agent"@
}

impl AgentRegistry {
    /// The relation of `sender_id` (`None`: the operator) to `receiver`.
    pub fn relation_of(&self, sender_id: Option<&String>, receiver: &String) -> (r: SenderRelation)
        requires self.wf(),
        ensures
            r == relation_spec(self.map(), match sender_id { Some(s) => Some(s@), None => None }, receiver@),
    {
        let id = match sender_id {
            None => return SenderRelation::Operator,
            Some(id) => id,
        };
        if *id == *receiver {
            return SenderRelation::Same;
        }
        let receiver_chain = self.supervisor_chain_ids(receiver);
        match &receiver_chain {
            Ok(chain) => {
                if tail_contains_str(chain, id) {
                    return SenderRelation::Superior;
                }
            },
            Err(_) => {},
        }
        let sender_chain = self.supervisor_chain_ids(id);
        match &sender_chain {
            Ok(chain) => {
                if tail_contains_str(chain, receiver) {
                    return SenderRelation::Subordinate;
                }
            },
            Err(_) => {},
        }
        if receiver_chain.is_err() || sender_chain.is_err() {
            SenderRelation::Unknown
        } else {
            SenderRelation::Peer
        }
    }

    /// Caller must be the operator or the supervisor itself; returns the
    /// supervisor's entry (`404` when it is not registered).
    pub fn require_supervisor(&self, identity: &Identity, supervisor_id: &String) -> (r: Result<&RegistryEntry, ApiError>)
        requires self.wf(),
        ensures
            !self.map().contains_key(supervisor_id@) ==> r is Err && r->Err_0.status == 404
                && r->Err_0.message@ == "supervisor agent "@ + supervisor_id@ + " not found"@,
            self.map().contains_key(supervisor_id@) ==> match identity {
                Identity::Operator => r == Ok::<&RegistryEntry, ApiError>(&self.map()[supervisor_id@]),
                Identity::Agent { id } => if id@ == supervisor_id@ {
                    r == Ok::<&RegistryEntry, ApiError>(&self.map()[supervisor_id@])
                } else {
                    r is Err && r->Err_0.status == 403
                        && r->Err_0.message@ == "invalid auth token for supervisor agent"@
                },
            },
    {
        let supervisor = match self.get(supervisor_id) {
            Some(e) => e,
            None => {
                let msg = "supervisor agent ".to_string().concat(supervisor_id.as_str()).concat(" not found");
                return Err(ApiError::not_found(msg));
            },
        };
        match identity {
            Identity::Operator => Ok(supervisor),
            Identity::Agent { id } => {
                if *id == *supervisor_id {
                    Ok(supervisor)
                } else {
                    Err(ApiError::forbidden("invalid auth token for supervisor agent".to_string()))
                }
            },
        }
    }

    /// Caller must be the operator or a superior of the target: some
    /// entry on the target's supervisor chain was created by the caller.
    pub fn require_superior(&self, identity: &Identity, target_id: &String) -> (r: Result<(), ApiError>)
        requires self.wf(),
        ensures
            match identity {
                Identity::Operator => r is Ok,
                Identity::Agent { id } => match chain_of(self.map(), target_id@) {
                    ChainWalk::Done(c) => if supervised_on_chain(self.map(), c, id@) {
                        r is Ok
                    } else {
                        r is Err && r->Err_0.status == 403 && r->Err_0.message@ == not_authorized_msg()
                    },
                    w => r is Err && chain_error_ok(w, r->Err_0),
                },
            },
    {
        match identity {
            Identity::Operator => Ok(()),
            Identity::Agent { id: caller_id } => {
                let chain = self.walk_supervisor_chain(target_id)?;
                let ghost c = match chain_of(self.map(), target_id@) { ChainWalk::Done(c) => c, _ => Seq::empty() };
                let mut i: usize = 0;
                while i < chain.len()
                    invariant
                        self.wf(),
                        i <= chain.len(),
                        chain_of(self.map(), target_id@) == ChainWalk::Done(c),
                        *identity == (Identity::Agent { id: *caller_id }),
                        chain.len() == c.len(),
                        forall|j: int| 0 <= j < c.len() ==> *(#[trigger] chain@[j]) == self.map()[c[j]],
                        forall|j: int| 0 <= j < i ==> #[trigger] self.map()[c[j]].sup() != Some(caller_id@),
                    decreases chain.len() - i,
                {
                    let e = chain[i];
                    match &e.identity().config.created_by {
                        Some(sup) => {
                            if *sup == *caller_id {
                                proof {
                                    assert(self.map()[c[i as int]].sup() == Some(caller_id@));
                                    assert(supervised_on_chain(self.map(), c, caller_id@));
                                }
                                return Ok(());
                            }
                        },
                        None => {},
                    }
                    proof { assert(*chain@[i as int] == self.map()[c[i as int]]); }
                    i = i + 1;
                }
                Err(ApiError::forbidden("not authorized to manage this agent".to_string()))
            },
        }
    }

    /// Caller must be the operator or the direct supervisor of the
    /// target (`404` when the target is not registered). A root target
    /// can only be relabelled by the operator.
    pub fn require_direct_supervisor(&self, identity: &Identity, target_id: &String) -> (r: Result<(), ApiError>)
        requires self.wf(),
        ensures
            !self.map().contains_key(target_id@) ==> r is Err && r->Err_0.status == 404
                && r->Err_0.message@ == "agent "@ + target_id@ + " not found"@,
            self.map().contains_key(target_id@) ==> match identity {
                Identity::Operator => r is Ok,
                Identity::Agent { id } => if self.map()[target_id@].sup() == Some(id@) {
                    r is Ok
                } else {
                    r is Err && r->Err_0.status == 403
                        && r->Err_0.message@ == "only the direct supervisor may change this agent's metadata"@
                },
            },
    {
        let target = match self.get(target_id) {
            Some(e) => e,
            None => {
                let msg = "agent ".to_string().concat(target_id.as_str()).concat(" not found");
                return Err(ApiError::not_found(msg));
            },
        };
        match identity {
            Identity::Operator => Ok(()),
            Identity::Agent { id: caller_id } => match &target.identity().config.created_by {
                Some(parent) => {
                    if *parent == *caller_id {
                        Ok(())
                    } else {
                        Err(ApiError::forbidden(
                            "only the direct supervisor may change this agent's metadata".to_string(),
                        ))
                    }
                },
                None => Err(ApiError::forbidden(
                    "only the direct supervisor may change this agent's metadata".to_string(),
                )),
            },
        }
    }

    /// Caller must be the operator or the target agent itself.
    pub fn require_self_or_operator(&self, identity: &Identity, target_id: &String) -> (r: Result<(), ApiError>)
        ensures
            match identity {
                Identity::Operator => r is Ok,
                Identity::Agent { id } => if id@ == target_id@ {
                    r is Ok
                } else {
                    r is Err && r->Err_0.status == 403
                        && r->Err_0.message@ == "only the agent itself or operator is authorized for this action"@
                },
            },
    {
        match identity {
            Identity::Operator => Ok(()),
            Identity::Agent { id } => {
                if *id == *target_id {
                    Ok(())
                } else {
                    Err(ApiError::forbidden(
                        "only the agent itself or operator is authorized for this action".to_string(),
                    ))
                }
            },
        }
    }

    /// Caller must be exactly the target agent: no operator override
    /// (speaking as the agent must not be forgeable).
    pub fn require_self(&self, identity: &Identity, target_id: &String) -> (r: Result<(), ApiError>)
        ensures
            match identity {
                Identity::Agent { id } if id@ == target_id@ => r is Ok,
                _ => r is Err && r->Err_0.status == 403
                    && r->Err_0.message@ == "only the agent itself may send as that agent"@,
            },
    {
        match identity {
            Identity::Agent { id } => {
                if *id == *target_id {
                    Ok(())
                } else {
                    Err(ApiError::forbidden("only the agent itself may send as that agent".to_string()))
                }
            },
            Identity::Operator => Err(ApiError::forbidden(
                "only the agent itself may send as that agent".to_string(),
            )),
        }
    }
}

} // verus!

verus! {

/// Two registry maps agree on every entry, children lists compared by
/// their ids.
pub open spec fn same_registry(a: Map<Seq<char>, RegistryEntry>, b: Map<Seq<char>, RegistryEntry>) -> bool {
    &&& a.dom() == b.dom()
    &&& forall|k: Seq<char>| #[trigger] a.contains_key(k) ==>
            a[k].same_but_kids(&b[k]) && a[k].kids() == b[k].kids()
}

/// `without` leaves a list that never held `x` unchanged, and undoes a
/// trailing push of `x`.
pub proof fn lemma_without_push(s: Seq<Seq<char>>, x: Seq<char>)
    requires !s.contains(x),
    ensures
        without(s, x) == s,
        without(s.push(x), x) == s,
    decreases s.len(),
{
    if s.len() > 0 {
        assert(!s.drop_last().contains(x)) by {
            if s.drop_last().contains(x) {
                let j = choose|j: int| 0 <= j < s.drop_last().len() && s.drop_last()[j] == x;
                assert(s[j] == x);
            }
        }
        lemma_without_push(s.drop_last(), x);
        assert(s.last() != x) by {
            assert(s[s.len() - 1] == s.last());
        }
        assert(s.drop_last().push(s.last()) =~= s);
    }
    assert(s.push(x).drop_last() =~= s);
}

/// Law: registering a fresh id and then unregistering it restores the
/// registry (entries and children lists) and its token index, when the
/// supervisor's children did not already list the id and the entry's
/// token hash was not already indexed.
pub proof fn law_register_then_unregister(
    m0: Map<Seq<char>, RegistryEntry>,
    t0: Map<Seq<char>, Seq<char>>,
    m1: Map<Seq<char>, RegistryEntry>,
    t1: Map<Seq<char>, Seq<char>>,
    m2: Map<Seq<char>, RegistryEntry>,
    t2: Map<Seq<char>, Seq<char>>,
    id: Seq<char>,
    entry: RegistryEntry,
)
    requires
        !m0.contains_key(id),
        entry.sup() != Some(id),
        forall|s: Seq<char>| entry.sup() == Some(s) && m0.contains_key(s) ==> !(#[trigger] m0[s].kids()).contains(id),
        forall|h: Seq<char>| live_token(entry) == Some(h) ==> !t0.contains_key(h),
        registered_as(m1, m0, id, entry, true),
        t1 == tokens_after_register(t0, id, entry),
        unregistered_as(m2, m1, id, m1[id]),
        t2 == tokens_after_unregister(t1, m1[id]),
    ensures
        same_registry(m2, m0),
        t2 == t0,
{
    assert(m2.dom() =~= m0.dom());
    assert forall|k: Seq<char>| #[trigger] m2.contains_key(k) implies
        m2[k].same_but_kids(&m0[k]) && m2[k].kids() == m0[k].kids() by {
        assert(k != id);
        assert(m1.contains_key(k));
        if entry.sup() == Some(k) {
            assert(!m0[k].kids().contains(id));
            lemma_without_push(m0[k].kids(), id);
        }
    }
    match live_token(entry) {
        Some(h) => {
            assert(t2 =~= t0);
        },
        None => {},
    }
}

/// Law, over the registry itself: `register` of a fresh id followed by
/// `unregister` of it hands back the registered entry and leaves the
/// registry as it was: the same ids and count, every entry (its
/// subagent list included) as before, and the token index as before, so
/// the entry's token no longer authenticates.
pub proof fn law_register_unregister_round_trip(
    r0: AgentRegistry,
    r1: AgentRegistry,
    r2: AgentRegistry,
    id: Seq<char>,
    entry: RegistryEntry,
    gone: Option<RegistryEntry>,
)
    requires
        r0.wf(),
        !r0.map().contains_key(id),
        entry.sup() != Some(id),
        forall|s: Seq<char>| entry.sup() == Some(s) && r0.map().contains_key(s) ==> !(#[trigger] r0.map()[s].kids()).contains(id),
        forall|h: Seq<char>| live_token(entry) == Some(h) ==> !r0.tokens().contains_key(h),
        // `r1` is `r0` after `register(id, entry)`.
        registered_as(r1.map(), r0.map(), id, entry, true),
        r1.tokens() == tokens_after_register(r0.tokens(), id, entry),
        // `r2` and `gone` are `r1` and the result after `unregister(id)`.
        match gone {
            None => !r1.map().contains_key(id) && r2.map() == r1.map() && r2.tokens() == r1.tokens(),
            Some(g) => r1.map().contains_key(id) && g == r1.map()[id]
                && unregistered_as(r2.map(), r1.map(), id, g) && r2.tokens() == tokens_after_unregister(r1.tokens(), g),
        },
    ensures
        gone == Some(entry),
        !r2.map().contains_key(id),
        same_registry(r2.map(), r0.map()),
        r2.map().dom().len() == r0.map().dom().len(),
        r2.tokens() == r0.tokens(),
        forall|h: Seq<char>| live_token(entry) == Some(h) ==> !r2.tokens().contains_key(h),
        forall|s: Seq<char>| entry.sup() == Some(s) && r0.map().contains_key(s) ==> r2.map()[s].kids() == r0.map()[s].kids(),
{
    assert(r1.map().contains_key(id));
    law_register_then_unregister(r0.map(), r0.tokens(), r1.map(), r1.tokens(), r2.map(), r2.tokens(), id, entry);
}

/// Law: the root registration keeps the single-root invariant and the
/// registered root is the new entry.
pub proof fn law_register_root_keeps_one_root(
    m0: Map<Seq<char>, RegistryEntry>,
    m1: Map<Seq<char>, RegistryEntry>,
    id: Seq<char>,
    entry: RegistryEntry,
)
    requires
        entry.is_root(),
        !has_root(m0),
        registered_as(m1, m0, id, entry, true),
    ensures
        at_most_one_root(m1),
        has_root(m1),
        forall|k: Seq<char>| m1.contains_key(k) && #[trigger] m1[k].is_root() ==> k == id,
{
    assert forall|k: Seq<char>| m1.contains_key(k) && #[trigger] m1[k].is_root() implies k == id by {
        if k != id {
            assert(m1[k] == m0[k]);
            assert(m0.contains_key(k));
        }
    }
    assert(m1.contains_key(id) && m1[id].is_root());
}

/// Law: registering a subagent (an entry with a supervisor) under a
/// fresh id keeps the single-root invariant.
pub proof fn law_register_subagent_keeps_one_root(
    m0: Map<Seq<char>, RegistryEntry>,
    m1: Map<Seq<char>, RegistryEntry>,
    id: Seq<char>,
    entry: RegistryEntry,
    link: bool,
)
    requires
        !entry.is_root(),
        !m0.contains_key(id),
        at_most_one_root(m0),
        registered_as(m1, m0, id, entry, link),
    ensures
        at_most_one_root(m1),
{
    assert forall|a: Seq<char>, b: Seq<char>|
        m1.contains_key(a) && m1.contains_key(b) && #[trigger] m1[a].is_root() && #[trigger] m1[b].is_root()
        implies a == b by {
        assert(a != id && b != id);
        if link && entry.sup() == Some(a) {
            assert(m1[a].same_but_kids(&m0[a]));
        }
        if link && entry.sup() == Some(b) {
            assert(m1[b].same_but_kids(&m0[b]));
        }
        assert(m0[a].is_root() && m0[b].is_root());
    }
}

/// Law: a registered live entry's token authenticates as its id, and
/// stops authenticating once the entry is unregistered.
pub proof fn law_token_follows_registration(
    t0: Map<Seq<char>, Seq<char>>,
    id: Seq<char>,
    entry: RegistryEntry,
)
    requires entry is Live,
    ensures
        tokens_after_register(t0, id, entry)[live_token(entry)->0] == id,
        !tokens_after_unregister(tokens_after_register(t0, id, entry), entry).contains_key(live_token(entry)->0),
{
}

/// Law: a finished supervisor chain starts at the start id, lists
/// distinct registered ids each supervised by the next, and ends at a
/// root.
pub proof fn law_chain_shape(m: Map<Seq<char>, RegistryEntry>, start: Seq<char>)
    ensures
        chain_of(m, start) matches ChainWalk::Done(c) ==> {
            &&& c.len() > 0
            &&& c[0] == start
            &&& forall|i: int| 0 <= i < c.len() ==> m.contains_key(#[trigger] c[i])
            &&& forall|i: int| 0 <= i < c.len() - 1 ==> m[#[trigger] c[i]].sup() == Some(c[i + 1])
            &&& m[c.last()].sup() is None
        },
{
    lemma_walk_done(m, start, Seq::empty(), m.dom().len() + 1);
}

/// Law: an agent may manage a target (another agent) exactly when it is
/// the target's superior: `require_superior`'s acceptance coincides with
/// the `Superior` relation.
pub proof fn law_superior_gate_matches_relation(
    m: Map<Seq<char>, RegistryEntry>,
    caller: Seq<char>,
    target: Seq<char>,
)
    requires caller != target,
    ensures
        (chain_of(m, target) matches ChainWalk::Done(c) && supervised_on_chain(m, c, caller))
            <==> relation_spec(m, Some(caller), target) == SenderRelation::Superior,
{
    law_chain_shape(m, target);
    if let ChainWalk::Done(c) = chain_of(m, target) {
        if supervised_on_chain(m, c, caller) {
            let i = choose|i: int| 0 <= i < c.len() && #[trigger] m[c[i]].sup() == Some(caller);
            if i == c.len() - 1 {
                assert(m[c.last()].sup() is None);
            } else {
                assert(c[i + 1] == caller);
                assert(tail_has(c, caller));
            }
        }
        if tail_has(c, caller) {
            let j = choose|j: int| 1 <= j < c.len() && c[j] == caller;
            assert(m[c[j - 1]].sup() == Some(c[j]));
            assert(supervised_on_chain(m, c, caller));
        }
    }
}

} // verus!
