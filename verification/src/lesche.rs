//! The root agent's outward voice: who may speak or read as the root,
//! which surface a send addresses, the history paging knobs, and the
//! unified list of addressable surfaces.
use vstd::prelude::*;
use vstd::string::StringExecFns;
use crate::auth::{ApiError, Identity};
use crate::agents::may_act_for;
use crate::order::lex_lt;
use crate::profiles::Modality;
use crate::registry::{AgentRegistry, first_root};
use crate::team::opt_view;

verus! {

/// `id` is the registered tagma root.
pub open spec fn is_root_id(l: Seq<(String, crate::registry::RegistryEntry)>, id: Seq<char>) -> bool {
    first_root(l) >= 0 && l[first_root(l)].0@ == id
}

fn is_root(registry: &AgentRegistry, id: &String) -> (b: bool)
    requires registry.wf(),
    ensures b == is_root_id(registry.listing(), id@),
{
    match registry.root_agent() {
        Some((rid, _)) => *rid == *id,
        None => false,
    }
}

/// Only the root itself speaks to the user: the caller must be the agent
/// `id` (`403`, the operator may not forge its voice) and `id` must be
/// the root (`403`).
pub fn require_root_self(registry: &AgentRegistry, identity: &Identity, id: &String) -> (r: Result<(), ApiError>)
    requires registry.wf(),
    ensures
        (r is Ok) <==> (identity matches Identity::Agent { id: a } && a@ == id@ && is_root_id(registry.listing(), id@)),
        r matches Err(e) ==> e.status == 403,
        !(identity matches Identity::Agent { id: a } && a@ == id@) ==> (r matches Err(e)
            && e.message@ == "only the agent itself may send as that agent"@),
        (identity matches Identity::Agent { id: a } && a@ == id@) && !is_root_id(registry.listing(), id@) ==> (r matches Err(e)
            && e.message@ == "delivering messages to the user requires the root agent; subagents must route outward communication through their supervisor"@),
{
    match registry.require_self(identity, id) {
        Ok(()) => {},
        Err(e) => return Err(e),
    }
    if !is_root(registry, id) {
        return Err(ApiError::forbidden(String::from_str(
            "delivering messages to the user requires the root agent; subagents must route outward communication through their supervisor",
        )));
    }
    Ok(())
}

/// Reading the root's surfaces: the root itself or the operator, and
/// `id` must be the root (`403` otherwise).
pub fn require_root_self_or_operator(registry: &AgentRegistry, identity: &Identity, id: &String) -> (r: Result<(), ApiError>)
    requires registry.wf(),
    ensures
        (r is Ok) <==> (may_act_for(*identity, id@) && is_root_id(registry.listing(), id@)),
        r matches Err(e) ==> e.status == 403,
        !may_act_for(*identity, id@) ==> (r matches Err(e)
            && e.message@ == "only the agent itself or operator is authorized for this action"@),
        may_act_for(*identity, id@) && !is_root_id(registry.listing(), id@) ==> (r matches Err(e)
            && e.message@ == "reading lesche surfaces requires the root agent"@),
{
    match registry.require_self_or_operator(identity, id) {
        Ok(()) => {},
        Err(e) => return Err(e),
    }
    if !is_root(registry, id) {
        return Err(ApiError::forbidden(String::from_str("reading lesche surfaces requires the root agent")));
    }
    Ok(())
}

/// The direct conversation is the root's: any other id is `404`.
pub fn require_root_conversation(registry: &AgentRegistry, id: &String, what: &str) -> (r: Result<(), ApiError>)
    requires registry.wf(),
    ensures
        (r is Ok) <==> is_root_id(registry.listing(), id@),
        r matches Err(e) ==> e.status == 404 && e.message@ == what@ + " is root-only; the direct conversation is the root's"@,
{
    if !is_root(registry, id) {
        return Err(ApiError::not_found(String::from_str(what).concat(" is root-only; the direct conversation is the root's")));
    }
    Ok(())
}

/// A pull of the direct conversation's history: rows after `after`,
/// before `before`, or the most recent ones.
#[derive(Clone, Copy, Debug, PartialEq, Eq, Structural)]
pub struct ExternalHistoryQuery {
    pub after: Option<i64>,
    pub before: Option<i64>,
    pub limit: Option<u32>,
}

impl Default for ExternalHistoryQuery {
    fn default() -> (q: ExternalHistoryQuery)
        ensures q.after is None && q.before is None && q.limit is None,
    {
        ExternalHistoryQuery { after: None, before: None, limit: None }
    }
}

/// The history page cap (and the page size when none is asked for).
pub const HISTORY_MAX_LIMIT: u32 = 50;

/// The page size of a history pull: the requested limit, capped at
/// [`HISTORY_MAX_LIMIT`], which is also the default.
pub fn history_limit(q: &ExternalHistoryQuery) -> (n: u32)
    ensures
        n == match q.limit {
            Some(l) => if l < HISTORY_MAX_LIMIT { l } else { HISTORY_MAX_LIMIT },
            None => HISTORY_MAX_LIMIT,
        },
{
    match q.limit {
        Some(l) => if l < HISTORY_MAX_LIMIT { l } else { HISTORY_MAX_LIMIT },
        None => HISTORY_MAX_LIMIT,
    }
}

/// The surface a send addresses.
#[derive(Clone, Debug)]
pub enum SendTarget {
    /// The 1:1 conversation with the user.
    Bilateral,
    Room(String),
    /// A peer tagma's direct session.
    Direct(String),
}

/// Pick a send's surface: a room, a peer tagma, or (neither) the
/// bilateral conversation; both at once is refused, and an attachment
/// rides direct-session sends only (`400`).
pub fn choose_target(room: Option<String>, tagma: Option<String>, has_attachment: bool) -> (r: Result<SendTarget, ApiError>)
    ensures
        match (room, tagma) {
            (Some(_), Some(_)) => r matches Err(e) && e.status == 400
                && e.message@ == "address exactly one target: room or tagma, not both"@,
            (Some(x), None) => if has_attachment {
                r matches Err(e) && e.status == 400
                    && e.message@ == "attachments ride direct-session sends only; a room send is text"@
            } else {
                r matches Ok(SendTarget::Room(y)) && y == x
            },
            (None, Some(p)) => r matches Ok(SendTarget::Direct(y)) && y == p,
            (None, None) => if has_attachment {
                r matches Err(e) && e.status == 400
                    && e.message@ == "attachments ride direct-session sends only; the bilateral send is text"@
            } else {
                r matches Ok(SendTarget::Bilateral)
            },
        },
{
    match (room, tagma) {
        (Some(_), Some(_)) => Err(ApiError::bad_request(String::from_str(
            "address exactly one target: room or tagma, not both",
        ))),
        (Some(x), None) => {
            if has_attachment {
                Err(ApiError::bad_request(String::from_str(
                    "attachments ride direct-session sends only; a room send is text",
                )))
            } else {
                Ok(SendTarget::Room(x))
            }
        },
        (None, Some(p)) => Ok(SendTarget::Direct(p)),
        (None, None) => {
            if has_attachment {
                Err(ApiError::bad_request(String::from_str(
                    "attachments ride direct-session sends only; the bilateral send is text",
                )))
            } else {
                Ok(SendTarget::Bilateral)
            }
        },
    }
}

/// The default page of the structured direct-history read.
pub const DIRECT_JSON_DEFAULT_LIMIT: u64 = 25;

/// The render of a direct-history read: the bracketed text (no
/// `format`) or typed rows (`json`); anything else is `400`.
pub fn direct_format(format: &Option<String>) -> (r: Result<bool, ApiError>)
    ensures
        match format {
            None => r == Ok::<bool, ApiError>(false),
            Some(f) => if f@ == "json"@ {
                r == Ok::<bool, ApiError>(true)
            } else {
                r matches Err(e) && e.status == 400 && e.message@ == "unsupported format: "@ + f@ + " (only json)"@
            },
        },
{
    match format {
        None => Ok(false),
        Some(f) => {
            if crate::config::str_eq(f.as_str(), "json") {
                Ok(true)
            } else {
                Err(ApiError::bad_request(String::from_str("unsupported format: ").concat(f.as_str()).concat(" (only json)")))
            }
        },
    }
}

/// The page asked of the direct history: an explicit limit wins; the
/// typed render pins a small default; the text render leaves it to the
/// server.
pub fn direct_limit(limit: Option<u64>, json: bool) -> (r: Option<u64>)
    ensures r == match limit { Some(l) => Some(l), None => if json { Some(DIRECT_JSON_DEFAULT_LIMIT) } else { None } },
{
    match limit {
        Some(l) => Some(l),
        None => if json { Some(DIRECT_JSON_DEFAULT_LIMIT) } else { None },
    }
}

/// The bracketed-render label of an attachment: its declared modality in
/// lowercase; an undeclared one (the older wire shape carried only
/// images) is an image.
pub fn attachment_label(modality: Option<Modality>) -> (s: &'static str)
    ensures
        s@ == match modality {
            Some(Modality::Image) | None => "image"@,
            Some(Modality::Audio) => "audio"@,
            Some(Modality::Video) => "video"@,
            Some(Modality::Text) => "text"@,
        },
{
    match modality {
        Some(Modality::Image) | None => "image",
        Some(Modality::Audio) => "audio",
        Some(Modality::Video) => "video",
        Some(Modality::Text) => "text",
    }
}

/// The pointer an attachment leaves in a rendered message: its declared
/// modality and the files-service record that holds it.
#[derive(Clone, Debug)]
pub struct AttachmentRef {
    pub modality: Option<Modality>,
    pub record_id: String,
}

/// One stored message of a room or a direct session, as the history
/// render reads it (the sender's handle already sanitized).
#[derive(Clone, Debug)]
pub struct HistoryRow {
    pub seq: u64,
    pub sender_kind: String,
    pub sender_id: String,
    pub handle: String,
    pub created_at: String,
    pub text: String,
    pub attachment: Option<AttachmentRef>,
}

pub open spec fn label_of(m: Option<Modality>) -> Seq<char> {
    match m {
        Some(Modality::Image) | None => "image"@,
        Some(Modality::Audio) => "audio"@,
        Some(Modality::Video) => "video"@,
        Some(Modality::Text) => "text"@,
    }
}

/// The message body: the text, and under it the bracketed pointer of an
/// attachment.
pub open spec fn body_of(r: HistoryRow) -> Seq<char> {
    match r.attachment {
        Some(a) => r.text@ + "\n["@ + label_of(a.modality) + " "@ + a.record_id@ + "]"@,
        None => r.text@,
    }
}

/// One bracketed block: `[seq=N from=KIND:ID "HANDLE" at=T]`, the body,
/// and a blank line (no handle part for an empty handle).
pub open spec fn block_of(r: HistoryRow) -> Seq<char> {
    "[seq="@ + crate::fmt::decimal(r.seq as nat) + " from="@ + r.sender_kind@ + ":"@ + r.sender_id@
        + (if r.handle@.len() == 0 { Seq::<char>::empty() } else { " \""@ + r.handle@ + "\""@ })
        + " at="@ + r.created_at@ + "]\n"@ + body_of(r) + "\n\n"@
}

/// The text render of a history page: the blocks in order.
pub open spec fn render_spec(rows: Seq<HistoryRow>) -> Seq<char>
    decreases rows.len(),
{
    if rows.len() == 0 {
        Seq::empty()
    } else {
        render_spec(rows.drop_last()) + block_of(rows.last())
    }
}

fn render_block(r: &HistoryRow) -> (s: String)
    ensures s@ == block_of(*r),
{
    let body = match &r.attachment {
        Some(a) => r.text.clone().concat("\n[").concat(attachment_label(a.modality)).concat(" ").concat(
            a.record_id.as_str(),
        ).concat("]"),
        None => r.text.clone(),
    };
    let seq = crate::fmt::display_u128(r.seq as u128);
    let head = String::from_str("[seq=").concat(seq.as_str()).concat(" from=").concat(r.sender_kind.as_str()).concat(
        ":",
    ).concat(r.sender_id.as_str());
    let head = if r.handle.as_str().unicode_len() == 0 {
        proof { assert(head@ + Seq::<char>::empty() =~= head@); }
        head
    } else {
        head.concat(" \"").concat(r.handle.as_str()).concat("\"")
    };
    head.concat(" at=").concat(r.created_at.as_str()).concat("]\n").concat(body.as_str()).concat("\n\n")
}

/// Render a history page as text (see [`render_spec`]); rows whose
/// payload could not be read are left out by the caller.
pub fn render_history(rows: &Vec<HistoryRow>) -> (s: String)
    ensures s@ == render_spec(rows@),
{
    let mut out = String::new();
    let mut i: usize = 0;
    while i < rows.len()
        invariant
            i <= rows.len(),
            out@ == render_spec(rows@.take(i as int)),
        decreases rows.len() - i,
    {
        proof {
            assert(rows@.take(i + 1).drop_last() =~= rows@.take(i as int));
            assert(rows@.take(i + 1).last() == rows@[i as int]);
        }
        let b = render_block(&rows[i]);
        out = out.concat(b.as_str());
        i = i + 1;
    }
    proof { assert(rows@.take(i as int) =~= rows@); }
    out
}

/// Map a lesche-client failure: a member-gated not-found is `404`
/// (unknown target, or not a member); anything else is `502`.
pub fn lesche_error(context: &str, not_found: bool, detail: &str) -> (e: ApiError)
    ensures
        not_found ==> e.status == 404 && e.message@ == context@ + ": unknown target or not a member"@,
        !not_found ==> e.status == 502 && e.message@ == context@ + ": "@ + detail@,
{
    if not_found {
        ApiError::not_found(String::from_str(context).concat(": unknown target or not a member"))
    } else {
        ApiError::bad_gateway(String::from_str(context).concat(": ").concat(detail))
    }
}

/// The kind of an addressable surface.
#[derive(Clone, Copy, Debug, PartialEq, Eq, Structural)]
pub enum SurfaceKind {
    Bilateral,
    Direct,
    Room,
}

/// The wire spelling of a surface kind.
pub open spec fn kind_name(k: SurfaceKind) -> Seq<char> {
    match k {
        SurfaceKind::Bilateral => "bilateral"@,
        SurfaceKind::Direct => "direct"@,
        SurfaceKind::Room => "room"@,
    }
}

/// The order of kinds, which is the order of their spellings.
pub open spec fn kind_rank(k: SurfaceKind) -> int {
    match k {
        SurfaceKind::Bilateral => 0,
        SurfaceKind::Direct => 1,
        SurfaceKind::Room => 2,
    }
}

impl SurfaceKind {
    pub fn name(&self) -> (s: &'static str)
        ensures s@ == kind_name(*self),
    {
        match self {
            SurfaceKind::Bilateral => "bilateral",
            SurfaceKind::Direct => "direct",
            SurfaceKind::Room => "room",
        }
    }
}

/// One addressable surface of the session list.
#[derive(Clone, Debug)]
pub struct SessionListEntry {
    pub kind: SurfaceKind,
    /// Conversation id, room id, or direct-session id.
    pub id: String,
    /// Room display name (rooms only).
    pub name: Option<String>,
    /// The peer's tagma id (direct sessions only).
    pub peer_tagma: Option<String>,
    /// The peer's handle (direct sessions only).
    pub peer_handle: Option<String>,
}

/// A room one relay lists.
#[derive(Clone, Debug)]
pub struct RoomInfo {
    pub room_id: String,
    pub name: Option<String>,
}

/// A direct session one relay lists.
#[derive(Clone, Debug)]
pub struct DirectInfo {
    pub session_id: String,
    pub peer_tagma: String,
    pub peer_handle: String,
}

/// What one relay answered: its rooms and its direct sessions, each
/// `None` when that listing failed (the relay's surfaces are skipped).
#[derive(Clone, Debug)]
pub struct RelayListing {
    pub rooms: Option<Vec<RoomInfo>>,
    pub directs: Option<Vec<DirectInfo>>,
}

/// The session list's order: by kind, then by id.
pub open spec fn entry_lt(a: (SurfaceKind, Seq<char>), b: (SurfaceKind, Seq<char>)) -> bool {
    kind_rank(a.0) < kind_rank(b.0) || (a.0 == b.0 && lex_lt(a.1, b.1))
}

pub open spec fn entry_key(e: SessionListEntry) -> (SurfaceKind, Seq<char>) {
    (e.kind, e.id@)
}

/// Some entry of `s` has key `k`.
pub open spec fn has_entry(s: Seq<SessionListEntry>, k: (SurfaceKind, Seq<char>)) -> bool {
    exists|i: int| 0 <= i < s.len() && entry_key(#[trigger] s[i]) == k
}

/// Strictly ordered by kind then id (so no surface twice).
pub open spec fn entries_sorted(s: Seq<SessionListEntry>) -> bool {
    forall|i: int, j: int| 0 <= i < j < s.len() ==> entry_lt(entry_key(#[trigger] s[i]), entry_key(#[trigger] s[j]))
}

/// The surface `k` is a room relay `rl` lists.
pub open spec fn room_named(rl: RelayListing, k: (SurfaceKind, Seq<char>)) -> bool {
    k.0 == SurfaceKind::Room && match rl.rooms {
        Some(v) => exists|j: int| 0 <= j < v@.len() && (#[trigger] v@[j]).room_id@ == k.1,
        None => false,
    }
}

/// The surface `k` is a direct session relay `rl` lists.
pub open spec fn direct_named(rl: RelayListing, k: (SurfaceKind, Seq<char>)) -> bool {
    k.0 == SurfaceKind::Direct && match rl.directs {
        Some(v) => exists|j: int| 0 <= j < v@.len() && (#[trigger] v@[j]).session_id@ == k.1,
        None => false,
    }
}

/// The surface `k` is one relay `rl` lists.
pub open spec fn relay_names(rl: RelayListing, k: (SurfaceKind, Seq<char>)) -> bool {
    room_named(rl, k) || direct_named(rl, k)
}

/// Some relay lists the surface `k`.
pub open spec fn listed_surface(relays: Seq<RelayListing>, k: (SurfaceKind, Seq<char>)) -> bool {
    exists|r: int| 0 <= r < relays.len() && relay_names(#[trigger] relays[r], k)
}

proof fn lemma_entry_lt_total(a: (SurfaceKind, Seq<char>), b: (SurfaceKind, Seq<char>))
    ensures a != b ==> entry_lt(a, b) || entry_lt(b, a),
{
    crate::order::lemma_lex_total(a.1, b.1);
}

proof fn lemma_entry_lt_transitive(a: (SurfaceKind, Seq<char>), b: (SurfaceKind, Seq<char>), c: (SurfaceKind, Seq<char>))
    ensures entry_lt(a, b) && entry_lt(b, c) ==> entry_lt(a, c),
{
    crate::order::lemma_lex_transitive(a.1, b.1, c.1);
}

proof fn lemma_entry_lt_irreflexive(a: (SurfaceKind, Seq<char>))
    ensures !entry_lt(a, a),
{
    crate::order::lemma_lex_irreflexive(a.1);
}

fn key_lt(a: &SessionListEntry, b: SurfaceKind, bid: &String) -> (r: bool)
    ensures r == entry_lt(entry_key(*a), (b, bid@)),
{
    let ra: u8 = match a.kind { SurfaceKind::Bilateral => 0, SurfaceKind::Direct => 1, SurfaceKind::Room => 2 };
    let rb: u8 = match b { SurfaceKind::Bilateral => 0, SurfaceKind::Direct => 1, SurfaceKind::Room => 2 };
    ra < rb || (a.kind == b && crate::order::str_lt(a.id.as_str(), bid.as_str()))
}

/// Insert an entry at its place in the ordered list unless its (kind,
/// id) is already there; `true` when it was inserted.
fn insert_entry(out: &mut Vec<SessionListEntry>, e: SessionListEntry) -> (inserted: bool)
    requires entries_sorted(old(out)@),
    ensures
        entries_sorted(final(out)@),
        inserted == !has_entry(old(out)@, entry_key(e)),
        forall|k: (SurfaceKind, Seq<char>)| #[trigger] has_entry(final(out)@, k)
            <==> (has_entry(old(out)@, k) || k == entry_key(e)),
        forall|p: int| 0 <= p < final(out)@.len() ==> #[trigger] final(out)@[p] == e
            || exists|q: int| 0 <= q < old(out)@.len() && old(out)@[q] == final(out)@[p],
{
    let ghost o = out@;
    let mut i: usize = 0;
    while i < out.len()
        invariant
            out@ == o,
            entries_sorted(o),
            i <= out.len(),
            forall|k: int| 0 <= k < i ==> entry_lt(entry_key(#[trigger] o[k]), entry_key(e)),
        ensures
            i < out.len() ==> !entry_lt(entry_key(o[i as int]), entry_key(e)),
        decreases out.len() - i,
    {
        if !key_lt(&out[i], e.kind, &e.id) {
            break;
        }
        i = i + 1;
    }
    let dup = i < out.len() && out[i].kind == e.kind && out[i].id == e.id;
    proof {
        if i < out.len() {
            lemma_entry_lt_total(entry_key(o[i as int]), entry_key(e));
        }
        assert forall|k: int| 0 <= k < o.len() && entry_key(o[k]) == entry_key(e) implies dup by {
            lemma_entry_lt_irreflexive(entry_key(e));
            if k > i {
                lemma_entry_lt_transitive(entry_key(e), entry_key(o[i as int]), entry_key(o[k]));
            }
        }
    }
    if dup {
        proof { assert(entry_key(o[i as int]) == entry_key(e)); }
        return false;
    }
    let ghost ek = entry_key(e);
    let ghost ev = e;
    out.insert(i, e);
    proof {
        let nv = out@;
        assert(nv =~= o.insert(i as int, nv[i as int]));
        assert forall|p: int| 0 <= p < nv.len() implies #[trigger] nv[p] == ev
            || exists|q: int| 0 <= q < o.len() && o[q] == nv[p] by {
            if p < i {
                assert(o[p] == nv[p]);
            } else if p > i {
                assert(o[p - 1] == nv[p]);
            }
        }
        assert forall|p: int, q: int| 0 <= p < q < nv.len() implies entry_lt(entry_key(#[trigger] nv[p]), entry_key(#[trigger] nv[q])) by {
            if q < i {
            } else if q == i {
            } else if p < i {
                if q - 1 > i {
                    lemma_entry_lt_transitive(ek, entry_key(o[i as int]), entry_key(o[q - 1]));
                }
                lemma_entry_lt_transitive(entry_key(nv[p]), ek, entry_key(nv[q]));
            } else if p == i {
                if q - 1 > i {
                    lemma_entry_lt_transitive(ek, entry_key(o[i as int]), entry_key(o[q - 1]));
                }
            } else {
            }
        }
        assert forall|k: (SurfaceKind, Seq<char>)| #[trigger] has_entry(nv, k)
            <==> (has_entry(o, k) || k == ek) by {
            if exists|j: int| 0 <= j < nv.len() && entry_key(#[trigger] nv[j]) == k {
                let j = choose|j: int| 0 <= j < nv.len() && entry_key(#[trigger] nv[j]) == k;
                if j < i { assert(o[j] == nv[j]); } else if j > i { assert(o[j - 1] == nv[j]); }
            }
            if exists|j: int| 0 <= j < o.len() && entry_key(#[trigger] o[j]) == k {
                let j = choose|j: int| 0 <= j < o.len() && entry_key(#[trigger] o[j]) == k;
                if j < i { assert(nv[j] == o[j]); } else { assert(nv[j + 1] == o[j]); }
            }
            if k == ek {
                assert(entry_key(nv[i as int]) == k);
            }
        }
    }
    true
}

/// Relay `r` lists room `j` as the surface of entry `e`, name included.
pub open spec fn room_source(relays: Seq<RelayListing>, r: int, j: int, e: SessionListEntry) -> bool {
    0 <= r < relays.len() && match relays[r].rooms {
        Some(v) => 0 <= j < v@.len() && v@[j].room_id@ == e.id@ && opt_view(v@[j].name) == opt_view(e.name),
        None => false,
    }
}

/// Relay `r` lists direct session `j` as the surface of entry `e`, peer
/// included.
pub open spec fn direct_source(relays: Seq<RelayListing>, r: int, j: int, e: SessionListEntry) -> bool {
    0 <= r < relays.len() && match relays[r].directs {
        Some(v) => 0 <= j < v@.len() && v@[j].session_id@ == e.id@
            && opt_view(e.peer_tagma) == Some(v@[j].peer_tagma@) && opt_view(e.peer_handle) == Some(v@[j].peer_handle@),
        None => false,
    }
}

/// Entry `e` is what its source says: the bilateral conversation bare,
/// a room with the name some relay lists for it, a direct session with
/// the peer some relay lists for it.
pub open spec fn entry_from(e: SessionListEntry, bilateral: Option<Seq<char>>, relays: Seq<RelayListing>) -> bool {
    match e.kind {
        SurfaceKind::Bilateral => bilateral == Some(e.id@) && e.name is None && e.peer_tagma is None
            && e.peer_handle is None,
        SurfaceKind::Room => e.peer_tagma is None && e.peer_handle is None
            && exists|r: int, j: int| #[trigger] room_source(relays, r, j, e),
        SurfaceKind::Direct => e.name is None && exists|r: int, j: int| #[trigger] direct_source(relays, r, j, e),
    }
}

/// The unified surface list: the bilateral conversation (when known),
/// then every room and direct session the relays list, each surface once
/// (two relays sharing one lesche list it twice), ordered by kind then
/// id.
pub fn collect_sessions(bilateral: Option<String>, relays: &Vec<RelayListing>) -> (r: Vec<SessionListEntry>)
    ensures
        entries_sorted(r@),
        forall|k: (SurfaceKind, Seq<char>)| #[trigger] has_entry(r@, k)
            <==> ((bilateral matches Some(b) && k == (SurfaceKind::Bilateral, b@)) || listed_surface(relays@, k)),
        forall|p: int| 0 <= p < r@.len() ==> entry_from(#[trigger] r@[p], opt_view(bilateral), relays@),
{
    let ghost bil = opt_view(bilateral);
    let mut out: Vec<SessionListEntry> = Vec::new();
    match bilateral {
        Some(b) => {
            let ghost bk = (SurfaceKind::Bilateral, b@);
            out.push(SessionListEntry { kind: SurfaceKind::Bilateral, id: b, name: None, peer_tagma: None, peer_handle: None });
            proof { assert(entry_key(out@[0]) == bk); }
        },
        None => {},
    }
    let ghost base = |k: (SurfaceKind, Seq<char>)| (bilateral matches Some(b) && k == (SurfaceKind::Bilateral, b@));
    let mut r: usize = 0;
    proof {
        assert forall|k: (SurfaceKind, Seq<char>)| #[trigger] has_entry(out@, k)
            <==> (base(k) || listed_surface(relays@.take(0), k)) by {
            if has_entry(out@, k) {
                let i = choose|i: int| 0 <= i < out@.len() && entry_key(#[trigger] out@[i]) == k;
            }
        }
    }
    while r < relays.len()
        invariant
            r <= relays.len(),
            entries_sorted(out@),
            forall|k: (SurfaceKind, Seq<char>)| #[trigger] has_entry(out@, k)
                <==> (base(k) || listed_surface(relays@.take(r as int), k)),
            forall|p: int| 0 <= p < out@.len() ==> entry_from(#[trigger] out@[p], bil, relays@),
        decreases relays.len() - r,
    {
        let ghost before = out@;
        let rl = &relays[r];
        match &rl.rooms {
            Some(v) => {
                let mut j: usize = 0;
                while j < v.len()
                    invariant
                        j <= v.len(),
                        entries_sorted(out@),
                        forall|k: (SurfaceKind, Seq<char>)| #[trigger] has_entry(out@, k)
                            <==> (has_entry(before, k)
                                || (k.0 == SurfaceKind::Room && exists|jj: int| 0 <= jj < j && (#[trigger] v@[jj]).room_id@ == k.1)),
                        r < relays@.len(),
                        relays@[r as int].rooms == Some(*v),
                        forall|p: int| 0 <= p < out@.len() ==> entry_from(#[trigger] out@[p], bil, relays@),
                    decreases v.len() - j,
                {
                    let e = SessionListEntry {
                        kind: SurfaceKind::Room,
                        id: v[j].room_id.clone(),
                        name: crate::team::copy_opt_string(&v[j].name),
                        peer_tagma: None,
                        peer_handle: None,
                    };
                    proof {
                        assert(room_source(relays@, r as int, j as int, e));
                        assert(entry_from(e, bil, relays@));
                    }
                    let ghost pre = out@;
                    let ghost ev = e;
                    insert_entry(&mut out, e);
                    proof {
                        assert forall|p: int| 0 <= p < out@.len() implies entry_from(#[trigger] out@[p], bil, relays@) by {
                            if out@[p] != ev {
                                let q = choose|q: int| 0 <= q < pre.len() && pre[q] == out@[p];
                                assert(entry_from(pre[q], bil, relays@));
                            }
                        }
                    }
                    j = j + 1;
                }
            },
            None => {},
        }
        proof {
            assert forall|k: (SurfaceKind, Seq<char>)| #[trigger] has_entry(out@, k)
                <==> (has_entry(before, k) || room_named(*rl, k)) by {}
        }
        let ghost mid = out@;
        match &rl.directs {
            Some(v) => {
                let mut j: usize = 0;
                while j < v.len()
                    invariant
                        j <= v.len(),
                        entries_sorted(out@),
                        forall|k: (SurfaceKind, Seq<char>)| #[trigger] has_entry(out@, k)
                            <==> (has_entry(mid, k)
                                || (k.0 == SurfaceKind::Direct && exists|jj: int| 0 <= jj < j && (#[trigger] v@[jj]).session_id@ == k.1)),
                        r < relays@.len(),
                        relays@[r as int].directs == Some(*v),
                        forall|p: int| 0 <= p < out@.len() ==> entry_from(#[trigger] out@[p], bil, relays@),
                    decreases v.len() - j,
                {
                    let e = SessionListEntry {
                        kind: SurfaceKind::Direct,
                        id: v[j].session_id.clone(),
                        name: None,
                        peer_tagma: Some(v[j].peer_tagma.clone()),
                        peer_handle: Some(v[j].peer_handle.clone()),
                    };
                    proof {
                        assert(direct_source(relays@, r as int, j as int, e));
                        assert(entry_from(e, bil, relays@));
                    }
                    let ghost pre = out@;
                    let ghost ev = e;
                    insert_entry(&mut out, e);
                    proof {
                        assert forall|p: int| 0 <= p < out@.len() implies entry_from(#[trigger] out@[p], bil, relays@) by {
                            if out@[p] != ev {
                                let q = choose|q: int| 0 <= q < pre.len() && pre[q] == out@[p];
                                assert(entry_from(pre[q], bil, relays@));
                            }
                        }
                    }
                    j = j + 1;
                }
            },
            None => {},
        }
        proof {
            assert forall|k: (SurfaceKind, Seq<char>)| #[trigger] has_entry(out@, k)
                <==> (has_entry(mid, k) || direct_named(*rl, k)) by {}
            assert(*rl == relays@[r as int]);
            assert(relays@.take(r + 1) =~= relays@.take(r as int).push(relays@[r as int]));
            assert forall|k: (SurfaceKind, Seq<char>)| listed_surface(relays@.take(r + 1), k)
                <==> (listed_surface(relays@.take(r as int), k) || relay_names(relays@[r as int], k)) by {
                let t1 = relays@.take(r + 1);
                let t0 = relays@.take(r as int);
                if listed_surface(t1, k) {
                    let x = choose|x: int| 0 <= x < t1.len() && relay_names(#[trigger] t1[x], k);
                    if x < r {
                        assert(t0[x] == t1[x]);
                    }
                }
                if listed_surface(t0, k) {
                    let x = choose|x: int| 0 <= x < t0.len() && relay_names(#[trigger] t0[x], k);
                    assert(t1[x] == t0[x]);
                }
                if relay_names(relays@[r as int], k) {
                    assert(t1[r as int] == relays@[r as int]);
                }
            }
            assert forall|k: (SurfaceKind, Seq<char>)| #[trigger] has_entry(out@, k)
                <==> (base(k) || listed_surface(relays@.take(r + 1), k)) by {
                assert(has_entry(before, k) <==> (base(k) || listed_surface(relays@.take(r as int), k)));
                assert(has_entry(mid, k) <==> (has_entry(before, k) || room_named(relays@[r as int], k)));
                assert(has_entry(out@, k) <==> (has_entry(mid, k) || direct_named(relays@[r as int], k)));
                assert(listed_surface(relays@.take(r + 1), k)
                    <==> (listed_surface(relays@.take(r as int), k) || relay_names(relays@[r as int], k)));
            }
        }
        r = r + 1;
    }
    proof { assert(relays@.take(r as int) =~= relays@); }
    out
}

} // verus!
