//! Routing caches of the relay polls: which rooms and which direct
//! sessions this tagma belongs to, keyed by the relay whose poll saw
//! them. Each relay's poll owns its slice and replaces it whole; the
//! other slices stay.
use vstd::prelude::*;
use crate::keyed::{find_key, has_key, keys_unique, lemma_lookup, lemma_push, lemma_update, pairs_map};

verus! {

/// The ids each relay's last poll listed.
pub open spec fn slices_view(m: Map<Seq<char>, Vec<String>>) -> Map<Seq<char>, Seq<Seq<char>>> {
    Map::new(|k: Seq<char>| m.contains_key(k), |k: Seq<char>| m[k].deep_view())
}

/// Some relay's slice lists `id`.
pub open spec fn held(m: Map<Seq<char>, Seq<Seq<char>>>, id: Seq<char>) -> bool {
    exists|r: Seq<char>| #[trigger] m.contains_key(r) && m[r].contains(id)
}

/// Append `x` unless it is already there.
fn push_new(out: &mut Vec<String>, x: &String)
    requires forall|a: int, b: int| 0 <= a < b < old(out)@.len() ==> old(out).deep_view()[a] != old(out).deep_view()[b],
    ensures
        forall|y: Seq<char>| final(out).deep_view().contains(y) <==> (old(out).deep_view().contains(y) || y == x@),
        forall|a: int, b: int| 0 <= a < b < final(out)@.len() ==> final(out).deep_view()[a] != final(out).deep_view()[b],
{
    let ghost pre = out.deep_view();
    let mut q: usize = 0;
    while q < out.len()
        invariant
            q <= out.len(),
            out.deep_view() == pre,
            forall|a: int, b: int| 0 <= a < b < pre.len() ==> pre[a] != pre[b],
            forall|p: int| 0 <= p < q ==> pre[p] != x@,
        decreases out.len() - q,
    {
        proof { assert(pre[q as int] == out@[q as int]@); }
        if out[q] == *x {
            return;
        }
        q = q + 1;
    }
    out.push(x.clone());
    proof {
        assert(out.deep_view() =~= pre.push(x@));
        assert forall|y: Seq<char>| out.deep_view().contains(y) <==> (pre.contains(y) || y == x@) by {
            if out.deep_view().contains(y) {
                let p = choose|p: int| 0 <= p < out.deep_view().len() && out.deep_view()[p] == y;
                if p < pre.len() {
                    assert(pre[p] == y);
                }
            }
            if pre.contains(y) {
                let p = choose|p: int| 0 <= p < pre.len() && pre[p] == y;
                assert(out.deep_view()[p] == y);
            }
            if y == x@ {
                assert(out.deep_view()[pre.len() as int] == y);
            }
        }
    }
}

/// The per-relay slices, in first-poll order.
#[derive(Clone, Debug)]
pub struct RelayIndex {
    slices: Vec<(String, Vec<String>)>,
}

impl RelayIndex {
    pub closed spec fn wf(&self) -> bool {
        keys_unique(self.slices@)
    }

    /// Relay name → the ids of its slice.
    pub closed spec fn view_map(&self) -> Map<Seq<char>, Seq<Seq<char>>> {
        slices_view(pairs_map(self.slices@))
    }

    pub fn new() -> (r: RelayIndex)
        ensures
            r.wf(),
            r.view_map() == Map::<Seq<char>, Seq<Seq<char>>>::empty(),
    {
        let r = RelayIndex { slices: Vec::new() };
        proof { assert(r.view_map() =~= Map::<Seq<char>, Seq<Seq<char>>>::empty()); }
        r
    }

    /// Replace `relay`'s slice; the other slices stay.
    pub fn set_slice(&mut self, relay: &String, ids: Vec<String>)
        requires old(self).wf(),
        ensures
            final(self).wf(),
            final(self).view_map() == old(self).view_map().insert(relay@, ids.deep_view()),
    {
        let ghost before = self.slices@;
        let ghost idv = ids.deep_view();
        match find_key(&self.slices, relay) {
            Some(i) => {
                let key = self.slices[i].0.clone();
                let ghost kv = key;
                let ghost iv = ids;
                self.slices.set(i, (key, ids));
                proof {
                    assert(self.slices@ == before.update(i as int, (kv, iv)));
                    lemma_update(before, i as int, kv, iv);
                }
            },
            None => {
                let key = relay.clone();
                let ghost kv = key;
                let ghost iv = ids;
                self.slices.push((key, ids));
                proof {
                    assert(self.slices@ == before.push((kv, iv)));
                    lemma_push(before, kv, iv);
                }
            },
        }
        proof {
            assert(self.view_map() =~= slices_view(pairs_map(before)).insert(relay@, idv));
        }
    }

    /// Whether some relay's slice lists `id`.
    pub fn holds(&self, id: &String) -> (b: bool)
        requires self.wf(),
        ensures b == held(self.view_map(), id@),
    {
        self.owner(id).is_some()
    }

    /// A relay whose slice lists `id`, if any (the first in poll order).
    pub fn owner(&self, id: &String) -> (r: Option<String>)
        requires self.wf(),
        ensures
            match r {
                Some(relay) => self.view_map().contains_key(relay@) && self.view_map()[relay@].contains(id@),
                None => !held(self.view_map(), id@),
            },
    {
        let mut i: usize = 0;
        while i < self.slices.len()
            invariant
                self.wf(),
                i <= self.slices.len(),
                forall|j: int| 0 <= j < i ==> !(#[trigger] self.slices@[j]).1.deep_view().contains(id@),
            decreases self.slices.len() - i,
        {
            let ids = &self.slices[i].1;
            let mut k: usize = 0;
            while k < ids.len()
                invariant
                    self.wf(),
                    i < self.slices.len(),
                    *ids == self.slices@[i as int].1,
                    k <= ids.len(),
                    forall|q: int| 0 <= q < k ==> ids.deep_view()[q] != id@,
                decreases ids.len() - k,
            {
                if ids[k] == *id {
                    proof {
                        lemma_lookup(self.slices@, i as int);
                        assert(ids.deep_view()[k as int] == id@);
                    }
                    return Some(self.slices[i].0.clone());
                }
                k = k + 1;
            }
            proof {
                assert(!self.slices@[i as int].1.deep_view().contains(id@));
            }
            i = i + 1;
        }
        proof {
            if held(self.view_map(), id@) {
                let r = choose|r: Seq<char>| #[trigger] self.view_map().contains_key(r) && self.view_map()[r].contains(id@);
                assert(has_key(self.slices@, r));
                let j = choose|j: int| 0 <= j < self.slices@.len() && self.slices@[j].0@ == r;
                lemma_lookup(self.slices@, j);
            }
        }
        None
    }

    /// Every id some slice lists, each once.
    pub fn all_ids(&self) -> (r: Vec<String>)
        requires self.wf(),
        ensures
            forall|x: Seq<char>| r.deep_view().contains(x) <==> held(self.view_map(), x),
            forall|a: int, b: int| 0 <= a < b < r@.len() ==> r.deep_view()[a] != r.deep_view()[b],
    {
        let mut out: Vec<String> = Vec::new();
        let mut i: usize = 0;
        while i < self.slices.len()
            invariant
                self.wf(),
                i <= self.slices.len(),
                forall|x: Seq<char>| out.deep_view().contains(x)
                    <==> exists|j: int| 0 <= j < i && (#[trigger] self.slices@[j]).1.deep_view().contains(x),
                forall|a: int, b: int| 0 <= a < b < out@.len() ==> out.deep_view()[a] != out.deep_view()[b],
            decreases self.slices.len() - i,
        {
            let ids = &self.slices[i].1;
            let mut k: usize = 0;
            while k < ids.len()
                invariant
                    self.wf(),
                    i < self.slices.len(),
                    *ids == self.slices@[i as int].1,
                    k <= ids.len(),
                    forall|x: Seq<char>| out.deep_view().contains(x)
                        <==> ((exists|j: int| 0 <= j < i && (#[trigger] self.slices@[j]).1.deep_view().contains(x))
                            || ids.deep_view().take(k as int).contains(x)),
                    forall|a: int, b: int| 0 <= a < b < out@.len() ==> out.deep_view()[a] != out.deep_view()[b],
                decreases ids.len() - k,
            {
                let ghost pre = out.deep_view();
                let x = &ids[k];
                push_new(&mut out, x);
                proof {
                    let t0 = ids.deep_view().take(k as int);
                    let t1 = ids.deep_view().take(k + 1);
                    assert(t1 =~= t0.push(x@));
                    assert forall|y: Seq<char>| out.deep_view().contains(y)
                        <==> ((exists|j: int| 0 <= j < i && (#[trigger] self.slices@[j]).1.deep_view().contains(y))
                            || t1.contains(y)) by {
                        assert(out.deep_view().contains(y) <==> (pre.contains(y) || y == x@));
                        if t1.contains(y) {
                            let p = choose|p: int| 0 <= p < t1.len() && t1[p] == y;
                            if p < k {
                                assert(t0[p] == y);
                            }
                        }
                        if t0.contains(y) {
                            let p = choose|p: int| 0 <= p < t0.len() && t0[p] == y;
                            assert(t1[p] == y);
                        }
                        if y == x@ {
                            assert(t1[k as int] == y);
                        }
                    }
                }
                k = k + 1;
            }
            proof {
                assert(ids.deep_view().take(k as int) =~= ids.deep_view());
                assert forall|x: Seq<char>| out.deep_view().contains(x)
                    <==> exists|j: int| 0 <= j < i + 1 && (#[trigger] self.slices@[j]).1.deep_view().contains(x) by {
                    if exists|j: int| 0 <= j < i + 1 && (#[trigger] self.slices@[j]).1.deep_view().contains(x) {
                        let j = choose|j: int| 0 <= j < i + 1 && (#[trigger] self.slices@[j]).1.deep_view().contains(x);
                        if j < i {
                            assert(exists|j2: int| 0 <= j2 < i && (#[trigger] self.slices@[j2]).1.deep_view().contains(x));
                        }
                    }
                }
            }
            i = i + 1;
        }
        proof {
            assert forall|x: Seq<char>| out.deep_view().contains(x) <==> held(self.view_map(), x) by {
                if out.deep_view().contains(x) {
                    let j = choose|j: int| 0 <= j < self.slices@.len() && (#[trigger] self.slices@[j]).1.deep_view().contains(x);
                    lemma_lookup(self.slices@, j);
                    assert(self.view_map().contains_key(self.slices@[j].0@));
                }
                if held(self.view_map(), x) {
                    let r = choose|r: Seq<char>| #[trigger] self.view_map().contains_key(r) && self.view_map()[r].contains(x);
                    let j = choose|j: int| 0 <= j < self.slices@.len() && self.slices@[j].0@ == r;
                    lemma_lookup(self.slices@, j);
                    assert(self.slices@[j].1.deep_view().contains(x));
                }
            }
        }
        out
    }
}

/// Law: a poll replaces only its own relay's slice. After relay
/// `relay` reports `ids`, every id in `ids` is held, and every other
/// relay's slice is exactly what it was.
pub proof fn law_poll_owns_its_slice(
    m: Map<Seq<char>, Seq<Seq<char>>>,
    relay: Seq<char>,
    ids: Seq<Seq<char>>,
)
    ensures
        forall|x: Seq<char>| ids.contains(x) ==> held(#[trigger] m.insert(relay, ids), x),
        forall|r: Seq<char>| r != relay && m.contains_key(r) ==> (#[trigger] m.insert(relay, ids)[r]) == m[r],
{
    assert forall|x: Seq<char>| ids.contains(x) implies held(#[trigger] m.insert(relay, ids), x) by {
        assert(m.insert(relay, ids).contains_key(relay));
    }
}

/// The rooms this tagma belongs to, per relay.
#[derive(Clone, Debug)]
pub struct JoinedRooms {
    rooms: RelayIndex,
}

impl JoinedRooms {
    pub closed spec fn wf(&self) -> bool {
        self.rooms.wf()
    }

    /// Relay name → the rooms its last poll listed.
    pub closed spec fn view_map(&self) -> Map<Seq<char>, Seq<Seq<char>>> {
        self.rooms.view_map()
    }

    pub fn new() -> (r: JoinedRooms)
        ensures r.wf(), r.view_map() == Map::<Seq<char>, Seq<Seq<char>>>::empty(),
    {
        JoinedRooms { rooms: RelayIndex::new() }
    }

    /// Whether `room` is a room this tagma belongs to (across relays).
    pub fn is_joined(&self, room: &String) -> (b: bool)
        requires self.wf(),
        ensures b == held(self.view_map(), room@),
    {
        self.rooms.holds(room)
    }

    /// Replace `relay`'s rooms from a fresh poll; other relays' rooms stay.
    pub fn set_joined_rooms(&mut self, relay: &String, rooms: Vec<String>)
        requires old(self).wf(),
        ensures
            final(self).wf(),
            final(self).view_map() == old(self).view_map().insert(relay@, rooms.deep_view()),
    {
        self.rooms.set_slice(relay, rooms);
    }

    /// Every room across relays, each once.
    pub fn joined_rooms(&self) -> (r: Vec<String>)
        requires self.wf(),
        ensures
            forall|x: Seq<char>| r.deep_view().contains(x) <==> held(self.view_map(), x),
            forall|a: int, b: int| 0 <= a < b < r@.len() ==> r.deep_view()[a] != r.deep_view()[b],
    {
        self.rooms.all_ids()
    }

    /// The relay whose lesche owns `room`, if a poll listed it.
    pub fn owner_of(&self, room: &String) -> (r: Option<String>)
        requires self.wf(),
        ensures
            match r {
                Some(relay) => self.view_map().contains_key(relay@) && self.view_map()[relay@].contains(room@),
                None => !held(self.view_map(), room@),
            },
    {
        self.rooms.owner(room)
    }
}

/// The direct sessions this tagma belongs to, per relay.
#[derive(Clone, Debug)]
pub struct DirectSessions {
    sessions: RelayIndex,
}

impl DirectSessions {
    pub closed spec fn wf(&self) -> bool {
        self.sessions.wf()
    }

    /// Relay name → the sessions its last poll listed.
    pub closed spec fn view_map(&self) -> Map<Seq<char>, Seq<Seq<char>>> {
        self.sessions.view_map()
    }

    pub fn new() -> (r: DirectSessions)
        ensures r.wf(), r.view_map() == Map::<Seq<char>, Seq<Seq<char>>>::empty(),
    {
        DirectSessions { sessions: RelayIndex::new() }
    }

    /// Whether `session` is a direct session this tagma belongs to.
    pub fn is_session(&self, session: &String) -> (b: bool)
        requires self.wf(),
        ensures b == held(self.view_map(), session@),
    {
        self.sessions.holds(session)
    }

    /// Replace `relay`'s sessions from a fresh poll; other relays'
    /// sessions stay.
    pub fn set_direct_sessions(&mut self, relay: &String, sessions: Vec<String>)
        requires old(self).wf(),
        ensures
            final(self).wf(),
            final(self).view_map() == old(self).view_map().insert(relay@, sessions.deep_view()),
    {
        self.sessions.set_slice(relay, sessions);
    }

    /// A relay whose lesche holds `session` (one id may live on several
    /// lesches; any one that lists it is returned).
    pub fn owner_of(&self, session: &String) -> (r: Option<String>)
        requires self.wf(),
        ensures
            match r {
                Some(relay) => self.view_map().contains_key(relay@) && self.view_map()[relay@].contains(session@),
                None => !held(self.view_map(), session@),
            },
    {
        self.sessions.owner(session)
    }
}

} // verus!
