//! Vectors of `(key, value)` pairs with distinct keys, read as maps from
//! the key's characters to the value. The registry and its token index
//! are kept this way, so their insertion order is also observable.
use vstd::prelude::*;

verus! {

/// No key occurs twice.
pub open spec fn keys_unique<V>(s: Seq<(String, V)>) -> bool {
    forall|i: int, j: int| 0 <= i < j < s.len() ==> s[i].0@ != s[j].0@
}

pub open spec fn has_key<V>(s: Seq<(String, V)>, k: Seq<char>) -> bool {
    exists|i: int| 0 <= i < s.len() && s[i].0@ == k
}

/// The map a pair vector stands for (the first pair wins for a
/// repeated key; with distinct keys there is exactly one).
pub open spec fn pairs_map<V>(s: Seq<(String, V)>) -> Map<Seq<char>, V> {
    Map::new(
        |k: Seq<char>| has_key(s, k),
        |k: Seq<char>| s[choose|i: int| 0 <= i < s.len() && s[i].0@ == k].1,
    )
}

/// With distinct keys, the pair at `i` is the map's value at its key.
pub proof fn lemma_lookup<V>(s: Seq<(String, V)>, i: int)
    requires
        keys_unique(s),
        0 <= i < s.len(),
    ensures
        pairs_map(s).contains_key(s[i].0@),
        pairs_map(s)[s[i].0@] == s[i].1,
{
    let k = s[i].0@;
    assert(has_key(s, k));
    let j = choose|j: int| 0 <= j < s.len() && s[j].0@ == k;
    if j != i {
        if j < i {
            assert(s[j].0@ != s[i].0@);
        } else {
            assert(s[i].0@ != s[j].0@);
        }
    }
}

/// Replacing the value of the pair at `i` (key kept) updates the map.
pub proof fn lemma_update<V>(s: Seq<(String, V)>, i: int, k: String, v: V)
    requires
        keys_unique(s),
        0 <= i < s.len(),
        k@ == s[i].0@,
    ensures
        keys_unique(s.update(i, (k, v))),
        pairs_map(s.update(i, (k, v))) == pairs_map(s).insert(s[i].0@, v),
{
    let t = s.update(i, (k, v));
    assert(keys_unique(t)) by {
        assert forall|a: int, b: int| 0 <= a < b < t.len() implies t[a].0@ != t[b].0@ by {
            assert(t[a].0@ == s[a].0@);
            assert(t[b].0@ == s[b].0@);
        }
    }
    let m1 = pairs_map(t);
    let m2 = pairs_map(s).insert(s[i].0@, v);
    assert forall|k: Seq<char>| m1.contains_key(k) <==> m2.contains_key(k) by {
        if has_key(t, k) {
            let a = choose|a: int| 0 <= a < t.len() && t[a].0@ == k;
            assert(s[a].0@ == k);
        }
        if has_key(s, k) {
            let a = choose|a: int| 0 <= a < s.len() && s[a].0@ == k;
            assert(t[a].0@ == k);
        }
        if k == s[i].0@ {
            assert(t[i].0@ == k);
        }
    }
    assert forall|k: Seq<char>| #[trigger] m1.contains_key(k) implies m1[k] == m2[k] by {
        let a = choose|a: int| 0 <= a < t.len() && t[a].0@ == k;
        lemma_lookup(t, a);
        if a != i {
            lemma_lookup(s, a);
        }
    }
    assert(m1 =~= m2);
}

/// Appending a pair with a fresh key inserts it into the map.
pub proof fn lemma_push<V>(s: Seq<(String, V)>, k: String, v: V)
    requires
        keys_unique(s),
        !has_key(s, k@),
    ensures
        keys_unique(s.push((k, v))),
        pairs_map(s.push((k, v))) == pairs_map(s).insert(k@, v),
{
    let t = s.push((k, v));
    assert(keys_unique(t)) by {
        assert forall|a: int, b: int| 0 <= a < b < t.len() implies t[a].0@ != t[b].0@ by {
            if b == s.len() {
                assert(t[a] == s[a]);
            } else {
                assert(t[a] == s[a]);
                assert(t[b] == s[b]);
            }
        }
    }
    let m1 = pairs_map(t);
    let m2 = pairs_map(s).insert(k@, v);
    assert forall|x: Seq<char>| m1.contains_key(x) <==> m2.contains_key(x) by {
        if has_key(t, x) {
            let a = choose|a: int| 0 <= a < t.len() && t[a].0@ == x;
            if a < s.len() {
                assert(t[a] == s[a]);
            }
        }
        if has_key(s, x) {
            let a = choose|a: int| 0 <= a < s.len() && s[a].0@ == x;
            assert(t[a] == s[a]);
        }
        if x == k@ {
            assert(t[s.len() as int].0@ == x);
        }
    }
    assert forall|x: Seq<char>| #[trigger] m1.contains_key(x) implies m1[x] == m2[x] by {
        let a = choose|a: int| 0 <= a < t.len() && t[a].0@ == x;
        lemma_lookup(t, a);
        if a < s.len() {
            assert(t[a] == s[a]);
            lemma_lookup(s, a);
        }
    }
    assert(m1 =~= m2);
}

/// Removing the pair at `i` removes its key from the map.
pub proof fn lemma_remove<V>(s: Seq<(String, V)>, i: int)
    requires
        keys_unique(s),
        0 <= i < s.len(),
    ensures
        keys_unique(s.remove(i)),
        pairs_map(s.remove(i)) == pairs_map(s).remove(s[i].0@),
{
    let t = s.remove(i);
    assert forall|a: int| 0 <= a < t.len() implies #[trigger] t[a] == (if a < i { s[a] } else { s[a + 1] }) by {}
    assert(keys_unique(t)) by {
        assert forall|a: int, b: int| 0 <= a < b < t.len() implies t[a].0@ != t[b].0@ by {
            let a2 = if a < i { a } else { a + 1 };
            let b2 = if b < i { b } else { b + 1 };
            assert(t[a] == s[a2]);
            assert(t[b] == s[b2]);
        }
    }
    let m1 = pairs_map(t);
    let m2 = pairs_map(s).remove(s[i].0@);
    assert forall|x: Seq<char>| m1.contains_key(x) <==> m2.contains_key(x) by {
        if has_key(t, x) {
            let a = choose|a: int| 0 <= a < t.len() && t[a].0@ == x;
            let a2 = if a < i { a } else { a + 1 };
            assert(t[a] == s[a2]);
            assert(has_key(s, x));
            assert(a2 != i);
            if x == s[i].0@ {
                if a2 < i {
                    assert(s[a2].0@ != s[i].0@);
                } else {
                    assert(s[i].0@ != s[a2].0@);
                }
            }
        }
        if has_key(s, x) && x != s[i].0@ {
            let a = choose|a: int| 0 <= a < s.len() && s[a].0@ == x;
            assert(a != i);
            let a2 = if a < i { a } else { a - 1 };
            assert(t[a2] == s[a]);
        }
    }
    assert forall|x: Seq<char>| #[trigger] m1.contains_key(x) implies m1[x] == m2[x] by {
        let a = choose|a: int| 0 <= a < t.len() && t[a].0@ == x;
        let a2 = if a < i { a } else { a + 1 };
        assert(t[a] == s[a2]);
        lemma_lookup(t, a);
        lemma_lookup(s, a2);
    }
    assert(m1 =~= m2);
}

/// The index of the pair keyed `k`, if any.
pub fn find_key<V>(v: &Vec<(String, V)>, k: &String) -> (r: Option<usize>)
    requires
        keys_unique(v@),
    ensures
        match r {
            Some(i) => i < v@.len() && v@[i as int].0@ == k@,
            None => !has_key(v@, k@),
        },
        r is None <==> !pairs_map(v@).contains_key(k@),
{
    let mut i: usize = 0;
    while i < v.len()
        invariant
            i <= v@.len(),
            forall|j: int| 0 <= j < i ==> v@[j].0@ != k@,
        decreases v@.len() - i,
    {
        if v[i].0 == *k {
            return Some(i);
        }
        i = i + 1;
    }
    None
}

} // verus!
