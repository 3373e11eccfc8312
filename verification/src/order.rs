//! The byte order of strings (code-point lexicographic order, which
//! UTF-8 preserves), and sorted sets of names kept in it.
use vstd::prelude::*;

verus! {

/// `a` sorts strictly before `b`: the first differing character is
/// smaller, or `a` is a proper prefix of `b`.
pub open spec fn lex_lt(a: Seq<char>, b: Seq<char>) -> bool
    decreases a.len(),
{
    if a.len() == 0 {
        b.len() > 0
    } else if b.len() == 0 {
        false
    } else if a[0] != b[0] {
        (a[0] as int) < (b[0] as int)
    } else {
        lex_lt(a.skip(1), b.skip(1))
    }
}

pub proof fn lemma_lex_irreflexive(a: Seq<char>)
    ensures !lex_lt(a, a),
    decreases a.len(),
{
    if a.len() > 0 {
        lemma_lex_irreflexive(a.skip(1));
    }
}

pub proof fn lemma_lex_total(a: Seq<char>, b: Seq<char>)
    ensures a != b ==> (lex_lt(a, b) || lex_lt(b, a)),
    decreases a.len(),
{
    if a.len() > 0 && b.len() > 0 && a[0] == b[0] {
        lemma_lex_total(a.skip(1), b.skip(1));
        if a.skip(1) == b.skip(1) {
            assert(a =~= seq![a[0]] + a.skip(1));
            assert(b =~= seq![b[0]] + b.skip(1));
        }
    } else if a.len() == 0 && b.len() == 0 {
        assert(a =~= b);
    }
}

pub proof fn lemma_lex_asymmetric(a: Seq<char>, b: Seq<char>)
    ensures lex_lt(a, b) ==> !lex_lt(b, a),
    decreases a.len(),
{
    if a.len() > 0 && b.len() > 0 && a[0] == b[0] {
        lemma_lex_asymmetric(a.skip(1), b.skip(1));
    }
}

pub proof fn lemma_lex_transitive(a: Seq<char>, b: Seq<char>, c: Seq<char>)
    ensures lex_lt(a, b) && lex_lt(b, c) ==> lex_lt(a, c),
    decreases a.len(),
{
    if a.len() > 0 && b.len() > 0 && c.len() > 0 {
        if a[0] == b[0] && b[0] == c[0] {
            lemma_lex_transitive(a.skip(1), b.skip(1), c.skip(1));
        }
    }
}

/// Strictly increasing in the byte order (hence free of repeats).
pub open spec fn sorted_strict(s: Seq<Seq<char>>) -> bool {
    forall|i: int, j: int| 0 <= i < j < s.len() ==> lex_lt(#[trigger] s[i], #[trigger] s[j])
}

/// Two strictly sorted sequences with the same members are equal.
pub proof fn lemma_sorted_same_members(a: Seq<Seq<char>>, b: Seq<Seq<char>>)
    requires
        sorted_strict(a),
        sorted_strict(b),
        forall|x: Seq<char>| a.contains(x) <==> b.contains(x),
    ensures
        a == b,
    decreases a.len(),
{
    if a.len() == 0 {
        if b.len() > 0 {
            assert(b.contains(b[0]));
        }
        assert(a =~= b);
    } else {
        assert(a.contains(a[0]));
        assert(b.contains(a[0]));
        let j = choose|j: int| 0 <= j < b.len() && b[j] == a[0];
        assert(b.contains(b[0]));
        let i = choose|i: int| 0 <= i < a.len() && a[i] == b[0];
        if j > 0 {
            assert(lex_lt(b[0], b[j]));
            if i > 0 {
                assert(lex_lt(a[0], a[i]));
                lemma_lex_asymmetric(b[0], a[0]);
            } else {
                lemma_lex_irreflexive(b[0]);
            }
        }
        assert(a[0] == b[0]);
        let ta = a.skip(1);
        let tb = b.skip(1);
        assert forall|x: Seq<char>| ta.contains(x) <==> tb.contains(x) by {
            if ta.contains(x) {
                let k = choose|k: int| 0 <= k < ta.len() && ta[k] == x;
                assert(a[k + 1] == x);
                assert(lex_lt(a[0], a[k + 1]));
                lemma_lex_irreflexive(x);
                assert(b.contains(x));
                let m = choose|m: int| 0 <= m < b.len() && b[m] == x;
                assert(m != 0);
                assert(tb[m - 1] == x);
            }
            if tb.contains(x) {
                let k = choose|k: int| 0 <= k < tb.len() && tb[k] == x;
                assert(b[k + 1] == x);
                assert(lex_lt(b[0], b[k + 1]));
                lemma_lex_irreflexive(x);
                assert(a.contains(x));
                let m = choose|m: int| 0 <= m < a.len() && a[m] == x;
                assert(m != 0);
                assert(ta[m - 1] == x);
            }
        }
        lemma_sorted_same_members(ta, tb);
        assert(a =~= seq![a[0]] + ta);
        assert(b =~= seq![b[0]] + tb);
    }
}

/// `a` sorts strictly before `b`.
pub fn str_lt(a: &str, b: &str) -> (r: bool)
    ensures r == lex_lt(a@, b@),
{
    let x = crate::text::chars_of(a);
    let y = crate::text::chars_of(b);
    let mut i: usize = 0;
    proof {
        assert(a@.skip(0) =~= a@);
        assert(b@.skip(0) =~= b@);
    }
    while i < x.len() && i < y.len()
        invariant
            x@ == a@,
            y@ == b@,
            i <= x@.len(),
            i <= y@.len(),
            x@.take(i as int) == y@.take(i as int),
            lex_lt(a@, b@) == lex_lt(a@.skip(i as int), b@.skip(i as int)),
        decreases x.len() - i,
    {
        if x[i] != y[i] {
            proof {
                assert(a@.skip(i as int)[0] == x@[i as int]);
                assert(b@.skip(i as int)[0] == y@[i as int]);
            }
            return x[i] < y[i];
        }
        proof {
            assert(a@.skip(i as int).skip(1) =~= a@.skip(i + 1));
            assert(b@.skip(i as int).skip(1) =~= b@.skip(i + 1));
            assert(x@.take(i + 1) =~= x@.take(i as int).push(x@[i as int]));
            assert(y@.take(i + 1) =~= y@.take(i as int).push(y@[i as int]));
        }
        i = i + 1;
    }
    proof {
        assert(a@.skip(i as int).len() == a@.len() - i);
    }
    i < y.len()
}

/// Where `x` goes in the strictly sorted `v`: the first index whose name
/// does not sort before `x`, and whether `x` already sits there.
pub fn sorted_position(v: &Vec<String>, x: &String) -> (r: (usize, bool))
    requires sorted_strict(v.deep_view()),
    ensures
        r.0 <= v@.len(),
        forall|k: int| 0 <= k < r.0 ==> lex_lt(#[trigger] v.deep_view()[k], x@),
        r.1 == (r.0 < v@.len() && v.deep_view()[r.0 as int] == x@),
        r.1 == v.deep_view().contains(x@),
        !r.1 && r.0 < v@.len() ==> lex_lt(x@, v.deep_view()[r.0 as int]),
{
    let ghost dv = v.deep_view();
    let mut i: usize = 0;
    while i < v.len()
        invariant
            dv == v.deep_view(),
            sorted_strict(dv),
            i <= v.len(),
            forall|k: int| 0 <= k < i ==> lex_lt(#[trigger] dv[k], x@),
        ensures
            i < v.len() ==> !lex_lt(dv[i as int], x@),
        decreases v.len() - i,
    {
        if !str_lt(v[i].as_str(), x.as_str()) {
            break;
        }
        i = i + 1;
    }
    let hit = i < v.len() && v[i] == *x;
    proof {
        if i < v.len() {
            lemma_lex_total(dv[i as int], x@);
        }
        if dv.contains(x@) && !hit {
            let k = choose|k: int| 0 <= k < dv.len() && dv[k] == x@;
            lemma_lex_irreflexive(x@);
            if k > i {
                lemma_lex_transitive(x@, dv[i as int], dv[k]);
            }
        }
    }
    (i, hit)
}

/// Inserting `x` at its sorted position keeps the sequence strictly
/// sorted.
pub proof fn lemma_insert_sorted(s: Seq<Seq<char>>, i: int, x: Seq<char>)
    requires
        sorted_strict(s),
        0 <= i <= s.len(),
        forall|k: int| 0 <= k < i ==> lex_lt(#[trigger] s[k], x),
        i < s.len() ==> lex_lt(x, s[i]),
    ensures
        sorted_strict(s.insert(i, x)),
{
    let nv = s.insert(i, x);
    assert forall|p: int, q: int| 0 <= p < q < nv.len() implies lex_lt(#[trigger] nv[p], #[trigger] nv[q]) by {
        if q < i {
        } else if q == i {
        } else if p < i {
            if q - 1 > i {
                lemma_lex_transitive(x, s[i], s[q - 1]);
            }
            lemma_lex_transitive(nv[p], x, nv[q]);
        } else if p == i {
            if q - 1 > i {
                lemma_lex_transitive(x, s[i], s[q - 1]);
            }
        } else {
        }
    }
}

/// Insert `x` into the strictly sorted `v` unless it is already there.
pub fn insert_sorted(v: &mut Vec<String>, x: String)
    requires sorted_strict(old(v).deep_view()),
    ensures
        sorted_strict(final(v).deep_view()),
        forall|s: Seq<char>| final(v).deep_view().contains(s) <==> (old(v).deep_view().contains(s) || s == x@),
{
    let ghost old_dv = v.deep_view();
    let mut i: usize = 0;
    while i < v.len()
        invariant
            v.deep_view() == old_dv,
            sorted_strict(old_dv),
            i <= v.len(),
            forall|k: int| 0 <= k < i ==> lex_lt(#[trigger] old_dv[k], x@),
        ensures
            i < v.len() ==> !lex_lt(old_dv[i as int], x@),
        decreases v.len() - i,
    {
        if !str_lt(v[i].as_str(), x.as_str()) {
            break;
        }
        i = i + 1;
    }
    if i < v.len() && v[i] == x {
        return;
    }
    proof {
        if i < v.len() {
            lemma_lex_total(old_dv[i as int], x@);
        }
    }
    v.insert(i, x);
    proof {
        let nv = v.deep_view();
        assert(nv =~= old_dv.insert(i as int, x@));
        assert forall|p: int, q: int| 0 <= p < q < nv.len() implies lex_lt(#[trigger] nv[p], #[trigger] nv[q]) by {
            if q < i {
            } else if q == i {
            } else if p < i {
                // nv[p] < x < nv[q]
                if q - 1 > i {
                    lemma_lex_transitive(x@, old_dv[i as int], old_dv[q - 1]);
                }
                lemma_lex_transitive(nv[p], x@, nv[q]);
            } else if p == i {
                if q - 1 > i {
                    lemma_lex_transitive(x@, old_dv[i as int], old_dv[q - 1]);
                }
            } else {
            }
        }
        assert forall|s: Seq<char>| nv.contains(s) <==> (old_dv.contains(s) || s == x@) by {
            if nv.contains(s) {
                let k = choose|k: int| 0 <= k < nv.len() && nv[k] == s;
                if k < i {
                    assert(old_dv[k] == s);
                } else if k > i {
                    assert(old_dv[k - 1] == s);
                }
            }
            if old_dv.contains(s) {
                let k = choose|k: int| 0 <= k < old_dv.len() && old_dv[k] == s;
                if k < i {
                    assert(nv[k] == s);
                } else {
                    assert(nv[k + 1] == s);
                }
            }
            if s == x@ {
                assert(nv[i as int] == s);
            }
        }
    }
}

} // verus!
