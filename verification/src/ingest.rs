//! Attachment ingest: who may ingest into a context, which media types
//! the inline form accepts, which registry entries can take an ingest,
//! and the text a recorded ingest carries in live context and history.
use vstd::prelude::*;
use vstd::string::StringExecFns;
use crate::auth::{ApiError, Identity};
use crate::fmt::{debug_quote, debug_quoted};
use crate::profiles::Modality;
use crate::registry::{AgentEntry, AgentRegistry, RegistryEntry};
use crate::team::status::{is_ws, ws_char};
use crate::text::{chars_of, owned_range};

verus! {

/// The media type the inline form assumes when the request names none.
pub open spec fn default_media_type() -> Seq<char> {
    seq!['i', 'm', 'a', 'g', 'e', '/', 'p', 'n', 'g']
}

/// Ingest is self-scoped: an agent ingests into its own context; the
/// operator may target any agent (`403` otherwise).
pub fn ingest_scope(identity: &Identity, id: &String) -> (r: Result<(), ApiError>)
    ensures
        (r is Ok) <==> (identity is Operator || (identity matches Identity::Agent { id: c } && c@ == id@)),
        r matches Err(e) ==> e.status == 403 && e.message@ == "agents may only ingest into their own context"@,
{
    match identity {
        Identity::Operator => Ok(()),
        Identity::Agent { id: caller } => {
            if *caller == *id {
                Ok(())
            } else {
                Err(ApiError::forbidden(String::from_str("agents may only ingest into their own context")))
            }
        },
    }
}

/// The record form assembles image parts only (`400` for audio, video
/// and text).
pub fn require_image_record(modality: Modality) -> (r: Result<(), ApiError>)
    ensures
        (r is Ok) <==> modality == Modality::Image,
        r matches Err(e) ==> e.status == 400
            && e.message@ == "only image ingest is wired; audio and video have no part assembly yet"@,
{
    match modality {
        Modality::Image => Ok(()),
        _ => Err(ApiError::bad_request(String::from_str(
            "only image ingest is wired; audio and video have no part assembly yet",
        ))),
    }
}

/// The chars of `s` before its first `c` (all of `s` when it holds no
/// `c`): the first piece `str::split` yields.
pub open spec fn before_first(s: Seq<char>, c: char) -> Seq<char>
    decreases s.len(),
{
    if s.len() == 0 {
        s
    } else if s[0] == c {
        Seq::empty()
    } else {
        seq![s[0]] + before_first(s.drop_first(), c)
    }
}

/// `s` without its leading whitespace.
pub open spec fn trim_start(s: Seq<char>) -> Seq<char>
    decreases s.len(),
{
    if s.len() > 0 && ws_char(s[0]) { trim_start(s.drop_first()) } else { s }
}

/// `s` without its trailing whitespace.
pub open spec fn trim_end(s: Seq<char>) -> Seq<char>
    decreases s.len(),
{
    if s.len() > 0 && ws_char(s.last()) { trim_end(s.drop_last()) } else { s }
}

/// `str::trim`: both ends stripped of whitespace.
pub open spec fn trim(s: Seq<char>) -> Seq<char> {
    trim_end(trim_start(s))
}

/// The media type a `Content-Type` value names: the part before any
/// parameters, trimmed.
pub open spec fn essence(v: Seq<char>) -> Seq<char> {
    trim(before_first(v, ';'))
}

pub open spec fn image_prefix() -> Seq<char> {
    seq!['i', 'm', 'a', 'g', 'e', '/']
}

/// An `image/*` media type.
pub open spec fn is_image_type(m: Seq<char>) -> bool {
    m.len() >= 6 && m.take(6) == image_prefix()
}

/// The media type the inline form records, or its refusal: a
/// `Content-Type` whose essence is `image/*` gives that essence; any
/// other type is `400`; no type at all gives `image/png`.
pub open spec fn media_type_spec(content_type: Option<Seq<char>>) -> Result<Seq<char>, Seq<char>> {
    match content_type {
        None => Ok(default_media_type()),
        Some(v) => if is_image_type(essence(v)) {
            Ok(essence(v))
        } else {
            Err("only image ingest is wired; got media type "@ + debug_quote(essence(v)))
        },
    }
}

proof fn lemma_before_first_step(s: Seq<char>, c: char, i: int)
    requires 0 <= i < s.len(), s[i] != c,
    ensures before_first(s.subrange(i, s.len() as int), c)
        == seq![s[i]] + before_first(s.subrange(i + 1, s.len() as int), c),
{
    let t = s.subrange(i, s.len() as int);
    assert(t.drop_first() =~= s.subrange(i + 1, s.len() as int));
}

fn first_end(v: &Vec<char>, c: char) -> (e: usize)
    ensures
        e <= v@.len(),
        before_first(v@, c) == v@.take(e as int),
{
    let n = v.len();
    let mut i: usize = 0;
    proof {
        assert(v@.subrange(0, n as int) =~= v@);
        assert(v@.take(0) + v@ =~= v@);
    }
    while i < n && v[i] != c
        invariant
            n == v@.len(),
            i <= n,
            before_first(v@, c) == v@.take(i as int) + before_first(v@.subrange(i as int, n as int), c),
        decreases n - i,
    {
        proof {
            lemma_before_first_step(v@, c, i as int);
            assert(v@.take(i as int) + (seq![v@[i as int]] + before_first(v@.subrange(i as int + 1, n as int), c))
                =~= v@.take(i as int + 1) + before_first(v@.subrange(i as int + 1, n as int), c));
        }
        i = i + 1;
    }
    proof {
        if i == n {
            assert(v@.subrange(i as int, n as int) =~= Seq::<char>::empty());
        }
        assert(v@.take(i as int) + Seq::<char>::empty() =~= v@.take(i as int));
    }
    i
}

proof fn lemma_trim_start_step(s: Seq<char>, i: int)
    requires 0 <= i < s.len(), ws_char(s[i]),
    ensures trim_start(s.subrange(i, s.len() as int)) == trim_start(s.subrange(i + 1, s.len() as int)),
{
    assert(s.subrange(i, s.len() as int).drop_first() =~= s.subrange(i + 1, s.len() as int));
}

proof fn lemma_trim_end_step(s: Seq<char>, lo: int, hi: int)
    requires 0 <= lo < hi <= s.len(), ws_char(s[hi - 1]),
    ensures trim_end(s.subrange(lo, hi)) == trim_end(s.subrange(lo, hi - 1)),
{
    assert(s.subrange(lo, hi).drop_last() =~= s.subrange(lo, hi - 1));
}

/// The bounds of `v[..e]` trimmed.
fn trim_bounds(v: &Vec<char>, e: usize) -> (r: (usize, usize))
    requires e <= v@.len(),
    ensures
        r.0 <= r.1 <= e,
        trim(v@.take(e as int)) == v@.subrange(r.0 as int, r.1 as int),
{
    let ghost t = v@.take(e as int);
    let mut lo: usize = 0;
    proof { assert(t.subrange(0, e as int) =~= t); }
    while lo < e && is_ws(v[lo])
        invariant
            e <= v@.len(),
            t == v@.take(e as int),
            lo <= e,
            trim_start(t) == trim_start(t.subrange(lo as int, e as int)),
        decreases e - lo,
    {
        proof { lemma_trim_start_step(t, lo as int); }
        lo = lo + 1;
    }
    proof {
        assert(t.subrange(0, e as int) =~= t);
    }
    let mut hi: usize = e;
    while hi > lo && is_ws(v[hi - 1])
        invariant
            e <= v@.len(),
            t == v@.take(e as int),
            lo <= hi <= e,
            trim_start(t) == t.subrange(lo as int, e as int),
            trim(t) == trim_end(t.subrange(lo as int, hi as int)),
        decreases hi - lo,
    {
        proof { lemma_trim_end_step(t, lo as int, hi as int); }
        hi = hi - 1;
    }
    proof {
        assert(t.subrange(lo as int, hi as int) =~= v@.subrange(lo as int, hi as int));
    }
    (lo, hi)
}

/// The media type of an inline ingest (see [`media_type_spec`]).
pub fn ingest_media_type(content_type: Option<&str>) -> (r: Result<String, ApiError>)
    ensures
        match media_type_spec(match content_type { Some(v) => Some(v@), None => None }) {
            Ok(m) => r matches Ok(s) && s@ == m,
            Err(msg) => r matches Err(e) && e.status == 400 && e.message@ == msg,
        },
{
    match content_type {
        None => {
            let s = String::from_str("image/png");
            proof { reveal_strlit("image/png"); assert(s@ =~= default_media_type()); }
            Ok(s)
        },
        Some(v) => {
            let cs = chars_of(v);
            let e = first_end(&cs, ';');
            let (lo, hi) = trim_bounds(&cs, e);
            let ghost m = cs@.subrange(lo as int, hi as int);
            let image = hi - lo >= 6 && cs[lo] == 'i' && cs[lo + 1] == 'm' && cs[lo + 2] == 'a'
                && cs[lo + 3] == 'g' && cs[lo + 4] == 'e' && cs[lo + 5] == '/';
            proof {
                if m.len() >= 6 {
                    assert(m.take(6)[0] == cs@[lo as int]);
                    assert(m.take(6)[1] == cs@[lo + 1]);
                    assert(m.take(6)[2] == cs@[lo + 2]);
                    assert(m.take(6)[3] == cs@[lo + 3]);
                    assert(m.take(6)[4] == cs@[lo + 4]);
                    assert(m.take(6)[5] == cs@[lo + 5]);
                    if image {
                        assert(m.take(6) =~= image_prefix());
                    }
                }
            }
            let ms = owned_range(v, lo, hi);
            if image {
                Ok(ms)
            } else {
                let q = debug_quoted(ms.as_str());
                Err(ApiError::bad_request(String::from_str("only image ingest is wired; got media type ").concat(q.as_str())))
            }
        },
    }
}

/// The registry entry an ingest lands in: a live agent; a faulted one
/// has no live context (`503`); an unknown id is `404`.
pub fn ingest_target<'a>(registry: &'a AgentRegistry, id: &String) -> (r: Result<&'a AgentEntry, ApiError>)
    requires registry.wf(),
    ensures
        !registry.map().contains_key(id@) ==> (r matches Err(e) && e.status == 404
            && e.message@ == "no agent "@ + id@),
        registry.map().contains_key(id@) ==> match registry.map()[id@] {
            RegistryEntry::Live(x) => r == Ok::<&AgentEntry, ApiError>(&x),
            RegistryEntry::Faulted(_) => r matches Err(e) && e.status == 503
                && e.message@ == "agent is faulted; there is no live context to ingest into"@,
        },
{
    let entry = match registry.get(id) {
        Some(e) => e,
        None => return Err(ApiError::not_found(String::from_str("no agent ").concat(id.as_str()))),
    };
    match entry.as_live() {
        Some(x) => Ok(x),
        None => Err(ApiError::unavailable(String::from_str("agent is faulted; there is no live context to ingest into"))),
    }
}

/// The pointer line that stands for an image in text: `[image <record id>]`.
pub open spec fn pointer_spec(record_id: Seq<char>) -> Seq<char> {
    "[image "@ + record_id + "]"@
}

/// The pointer line of an ingested image (the record id in its textual
/// UUID form; the nil id for the inline form).
pub fn image_pointer(record_id: &str) -> (p: String)
    ensures p@ == pointer_spec(record_id@),
{
    String::from_str("[image ").concat(record_id).concat("]")
}

/// The text part of the live message: the caption, or the pointer when
/// there is none.
pub fn live_text(caption: &Option<String>, pointer: &String) -> (t: String)
    ensures
        t@ == match caption { Some(c) => c@, None => pointer@ },
{
    match caption {
        Some(c) => c.clone(),
        None => pointer.clone(),
    }
}

/// The text history records for an ingest: the caption and the pointer
/// on the next line, or the pointer alone. The image bytes never enter
/// the record.
pub fn history_text(caption: &Option<String>, pointer: &String) -> (t: String)
    ensures
        t@ == match caption { Some(c) => c@ + "\n"@ + pointer@, None => pointer@ },
{
    match caption {
        Some(c) => c.clone().concat("\n").concat(pointer.as_str()),
        None => pointer.clone(),
    }
}

} // verus!
