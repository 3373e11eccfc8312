//! Character-level text helpers: bounded activity strings and masked
//! API keys.
use vstd::prelude::*;

verus! {

/// Maximum activity length (chars). Longer reports are truncated, not
/// rejected, so a report never fails the agent's turn.
pub const MAX_ACTIVITY_CHARS: usize = 256;

/// The first `max` characters of `s` (all of `s` when shorter).
pub open spec fn truncated(s: Seq<char>, max: nat) -> Seq<char> {
    if s.len() > max { s.subrange(0, max as int) } else { s }
}

/// Truncate `s` in place to at most `max` characters, on a character
/// boundary.
pub fn truncate_chars(s: &mut String, max: usize)
    ensures final(s)@ == truncated(old(s)@, max as nat),
{
    let n = s.as_str().unicode_len();
    if n > max {
        let kept = s.as_str().substring_char(0, max).to_owned();
        *s = kept;
    }
}

/// Eight mask characters.
pub open spec fn stars() -> Seq<char> {
    seq!['*', '*', '*', '*', '*', '*', '*', '*']
}

/// The masked form of an API key: empty stays empty, up to eight
/// characters become eight stars, longer keys keep their first and last
/// four characters around eight stars. Counted in characters, so a
/// multibyte key is never split inside a code point.
pub open spec fn masked(k: Seq<char>) -> Seq<char> {
    if k.len() == 0 {
        Seq::empty()
    } else if k.len() <= 8 {
        stars()
    } else {
        k.subrange(0, 4) + stars() + k.subrange(k.len() - 4, k.len() as int)
    }
}

/// Mask an API key for display (see [`masked`]).
pub fn mask_key(key: &str) -> (r: String)
    ensures r@ == masked(key@),
{
    let n = key.unicode_len();
    let star = "********";
    proof {
        reveal_strlit("********");
        assert(star@ =~= stars());
    }
    if n == 0 {
        return String::new();
    }
    if n <= 8 {
        return star.to_owned();
    }
    let head = key.substring_char(0, 4).to_owned();
    let tail = key.substring_char(n - 4, n);
    let r = head.concat(star).concat(tail);
    proof {
        assert(r@ =~= masked(key@));
    }
    r
}

/// The characters of `s`, in order.
pub fn chars_of(s: &str) -> (v: Vec<char>)
    ensures v@ == s@,
{
    let n = s.unicode_len();
    let mut v: Vec<char> = Vec::new();
    let mut i: usize = 0;
    while i < n
        invariant
            n == s@.len(),
            i <= n,
            v@ == s@.take(i as int),
        decreases n - i,
    {
        v.push(s.get_char(i));
        proof { assert(s@.take(i + 1) =~= s@.take(i as int).push(s@[i as int])); }
        i = i + 1;
    }
    proof { assert(s@.take(n as int) =~= s@); }
    v
}

/// An owned copy of the characters `from..to` of `s`.
pub fn owned_range(s: &str, from: usize, to: usize) -> (r: String)
    requires from <= to <= s@.len(),
    ensures r@ == s@.subrange(from as int, to as int),
{
    s.substring_char(from, to).to_owned()
}

/// `t` occurs in `s` at `i`.
pub open spec fn occurs_at(s: Seq<char>, t: Seq<char>, i: int) -> bool {
    0 <= i && i + t.len() <= s.len() && s.subrange(i, i + t.len()) == t
}

/// `str::contains`: `t` occurs somewhere in `s`.
pub open spec fn has_sub(s: Seq<char>, t: Seq<char>) -> bool {
    exists|i: int| occurs_at(s, t, i)
}

fn occurs_at_exec(s: &Vec<char>, t: &Vec<char>, i: usize) -> (b: bool)
    requires i + t@.len() <= s@.len(),
    ensures b == occurs_at(s@, t@, i as int),
{
    let mut j: usize = 0;
    while j < t.len()
        invariant
            s@.len() == s.len(),
            i + t@.len() <= s@.len(),
            j <= t@.len(),
            forall|k: int| 0 <= k < j ==> s@[i + k] == t@[k],
        decreases t@.len() - j,
    {
        if s[i + j] != t[j] {
            proof {
                assert(s@.subrange(i as int, i + t@.len())[j as int] != t@[j as int]);
            }
            return false;
        }
        j = j + 1;
    }
    proof {
        assert(s@.subrange(i as int, i + t@.len()) =~= t@);
    }
    true
}

/// Whether `t` occurs in `s` (see [`has_sub`]).
pub fn contains_sub(s: &str, t: &str) -> (b: bool)
    ensures b == has_sub(s@, t@),
{
    let sv = chars_of(s);
    let tv = chars_of(t);
    if tv.len() > sv.len() {
        proof {
            assert forall|i: int| !occurs_at(s@, t@, i) by {}
        }
        return false;
    }
    if tv.len() == 0 {
        proof {
            assert(t@ =~= tv@);
            assert(s@.subrange(0, 0) =~= t@);
            assert(occurs_at(s@, t@, 0));
        }
        return true;
    }
    let last = sv.len() - tv.len();
    let mut i: usize = 0;
    while i <= last
        invariant
            sv@ == s@,
            tv@ == t@,
            sv@.len() == sv.len(),
            tv@.len() >= 1,
            last == sv@.len() - tv@.len(),
            i <= last + 1,
            forall|k: int| 0 <= k < i ==> !occurs_at(s@, t@, k),
        decreases last + 1 - i,
    {
        if occurs_at_exec(&sv, &tv, i) {
            return true;
        }
        i = i + 1;
    }
    proof {
        assert forall|k: int| !occurs_at(s@, t@, k) by {
            if 0 <= k < i {
            }
        }
    }
    false
}

} // verus!
