//! The three-way comparison behind the team status table: declaration
//! versus lock records versus the live registry, plus the parser of the
//! `role:id` lock parameter both team endpoints share.
use vstd::prelude::*;
use vstd::string::StringExecFns;
use crate::auth::ApiError;
use crate::fmt::{debug_quote, debug_quoted};
use crate::text::{chars_of, owned_range};
use crate::order::{insert_sorted, sorted_strict};
use crate::team::{RoleDeclView, RoleDeclaration, RoleDisposition, TeamDeclaration, TeamRoleStatus, opt_view};

verus! {

/// The pieces of `s` between occurrences of `sep`, as `str::split`
/// yields them: always at least one, empty pieces kept.
pub open spec fn split_on(s: Seq<char>, sep: char) -> Seq<Seq<char>>
    decreases s.len(),
{
    if s.len() == 0 {
        seq![Seq::empty()]
    } else {
        let p = split_on(s.drop_last(), sep);
        if s.last() == sep {
            p.push(Seq::empty())
        } else {
            p.update(p.len() - 1, p.last().push(s.last()))
        }
    }
}

pub proof fn lemma_split_nonempty(s: Seq<char>, sep: char)
    ensures split_on(s, sep).len() >= 1,
    decreases s.len(),
{
    if s.len() > 0 {
        lemma_split_nonempty(s.drop_last(), sep);
    }
}

/// The index of the last `c` in `s`, or -1.
pub open spec fn last_index_of(s: Seq<char>, c: char) -> int
    decreases s.len(),
{
    if s.len() == 0 {
        -1
    } else if s.last() == c {
        s.len() - 1
    } else {
        last_index_of(s.drop_last(), c)
    }
}

pub proof fn lemma_last_index_of(s: Seq<char>, c: char)
    ensures
        -1 <= last_index_of(s, c) < s.len(),
        last_index_of(s, c) >= 0 ==> s[last_index_of(s, c)] == c,
        forall|j: int| last_index_of(s, c) < j < s.len() ==> s[j] != c,
    decreases s.len(),
{
    if s.len() > 0 {
        lemma_last_index_of(s.drop_last(), c);
        if s.last() != c {
            assert forall|j: int| last_index_of(s, c) < j < s.len() implies s[j] != c by {
                if j < s.len() - 1 {
                    assert(s.drop_last()[j] == s[j]);
                }
            }
        }
    }
}

/// Unicode `White_Space`, the set `str::trim` strips.
pub open spec fn ws_char(c: char) -> bool {
    ||| c == ' '
    ||| ('\t' <= c && c <= '\r')
    ||| c == '\u{85}'
    ||| c == '\u{A0}'
    ||| c == '\u{1680}'
    ||| ('\u{2000}' <= c && c <= '\u{200A}')
    ||| c == '\u{2028}'
    ||| c == '\u{2029}'
    ||| c == '\u{202F}'
    ||| c == '\u{205F}'
    ||| c == '\u{3000}'
}

/// Whether `c` is Unicode whitespace.
pub fn is_ws(c: char) -> (b: bool)
    ensures b == ws_char(c),
{
    c == ' ' || ('\t' <= c && c <= '\r') || c == '\u{85}' || c == '\u{A0}' || c == '\u{1680}'
        || ('\u{2000}' <= c && c <= '\u{200A}') || c == '\u{2028}' || c == '\u{2029}'
        || c == '\u{202F}' || c == '\u{205F}' || c == '\u{3000}'
}

/// `s.trim()` is empty.
pub open spec fn all_ws(s: Seq<char>) -> bool {
    forall|i: int| 0 <= i < s.len() ==> ws_char(#[trigger] s[i])
}

/// `s.trim() != s`, for a string that is not all whitespace: it starts
/// or ends with whitespace.
pub open spec fn edge_ws(s: Seq<char>) -> bool {
    s.len() > 0 && (ws_char(s[0]) || ws_char(s.last()))
}

pub open spec fn hex_char(c: char) -> bool {
    ('0' <= c && c <= '9') || ('a' <= c && c <= 'f') || ('A' <= c && c <= 'F')
}

/// The hyphenated UUID spelling: 8-4-4-4-12 hexadecimal digits.
pub open spec fn uuid_format(s: Seq<char>) -> bool {
    &&& s.len() == 36
    &&& forall|i: int| 0 <= i < 36 ==> if i == 8 || i == 13 || i == 18 || i == 23 {
        #[trigger] s[i] == '-'
    } else {
        hex_char(s[i])
    }
}

/// Whether `s` spells a UUID in the hyphenated form.
pub fn is_uuid_format(s: &str) -> (b: bool)
    ensures b == uuid_format(s@),
{
    let cs = chars_of(s);
    if cs.len() != 36 {
        return false;
    }
    let mut i: usize = 0;
    while i < 36
        invariant
            cs@ == s@,
            cs@.len() == 36,
            i <= 36,
            forall|j: int| 0 <= j < i ==> if j == 8 || j == 13 || j == 18 || j == 23 {
                #[trigger] s@[j] == '-'
            } else {
                hex_char(s@[j])
            },
        decreases 36 - i,
    {
        let c = cs[i];
        let ok = if i == 8 || i == 13 || i == 18 || i == 23 {
            c == '-'
        } else {
            ('0' <= c && c <= '9') || ('a' <= c && c <= 'f') || ('A' <= c && c <= 'F')
        };
        if !ok {
            return false;
        }
        i = i + 1;
    }
    true
}

pub open spec fn msg_no_colon(piece: Seq<char>) -> Seq<char> {
    "malformed lock pair "@ + debug_quote(piece) + ": expected role:id"@
}

pub open spec fn msg_empty_role(piece: Seq<char>) -> Seq<char> {
    "malformed lock pair "@ + debug_quote(piece) + ": empty role"@
}

pub open spec fn msg_padded_role(piece: Seq<char>) -> Seq<char> {
    "malformed lock pair "@ + debug_quote(piece) + ": role has leading or trailing whitespace"@
}

pub open spec fn msg_repeated_role(role: Seq<char>) -> Seq<char> {
    "malformed lock parameter: duplicate pair for role "@ + debug_quote(role)
}

pub open spec fn msg_bad_id(role: Seq<char>) -> Seq<char> {
    "malformed lock pair "@ + debug_quote(role) + ": id is not a UUID"@
}

/// The roles of a pair list.
pub open spec fn pair_roles(pairs: Seq<(Seq<char>, Seq<char>)>) -> Seq<Seq<char>> {
    pairs.map_values(|p: (Seq<char>, Seq<char>)| p.0)
}

/// The verdict on one `role:id` piece, given the pairs accepted before
/// it: split at the last colon, then refuse a blank role, a padded
/// role, a role already seen, and an id that is not a UUID, in that
/// order.
pub open spec fn piece_verdict(seen: Seq<(Seq<char>, Seq<char>)>, piece: Seq<char>) -> Result<
    (Seq<char>, Seq<char>),
    Seq<char>,
> {
    let k = last_index_of(piece, ':');
    if k < 0 {
        Err(msg_no_colon(piece))
    } else {
        let role = piece.take(k);
        let id = piece.skip(k + 1);
        if all_ws(role) {
            Err(msg_empty_role(piece))
        } else if edge_ws(role) {
            Err(msg_padded_role(piece))
        } else if pair_roles(seen).contains(role) {
            Err(msg_repeated_role(role))
        } else if !uuid_format(id) {
            Err(msg_bad_id(role))
        } else {
            Ok((role, id))
        }
    }
}

/// The pairs a list of pieces parses to, or the message of the first
/// refused piece.
pub open spec fn parse_pieces(pieces: Seq<Seq<char>>) -> Result<Seq<(Seq<char>, Seq<char>)>, Seq<char>>
    decreases pieces.len(),
{
    if pieces.len() == 0 {
        Ok(Seq::empty())
    } else {
        match parse_pieces(pieces.drop_last()) {
            Err(m) => Err(m),
            Ok(seen) => match piece_verdict(seen, pieces.last()) {
                Err(m) => Err(m),
                Ok(pair) => Ok(seen.push(pair)),
            },
        }
    }
}

/// The value of an owned pair list.
pub open spec fn pair_views(v: Seq<(String, String)>) -> Seq<(Seq<char>, Seq<char>)> {
    v.map_values(|p: (String, String)| (p.0@, p.1@))
}

/// The pieces of `raw` between occurrences of `sep`, in order.
pub fn split_on_char(raw: &str, sep: char) -> (r: Vec<String>)
    ensures r.deep_view() == split_on(raw@, sep),
{
    let cs = chars_of(raw);
    let n = cs.len();
    let mut out: Vec<String> = Vec::new();
    let mut start: usize = 0;
    let mut i: usize = 0;
    proof {
        assert(raw@.take(0) =~= Seq::<char>::empty());
        assert(out.deep_view() =~= Seq::<Seq<char>>::empty());
        assert(raw@.subrange(0, 0) =~= Seq::<char>::empty());
    }
    while i < n
        invariant
            cs@ == raw@,
            n == cs@.len(),
            start <= i <= n,
            out.deep_view().push(raw@.subrange(start as int, i as int)) == split_on(raw@.take(i as int), sep),
        decreases n - i,
    {
        let ghost before = raw@.take(i as int);
        proof {
            assert(raw@.take(i + 1).drop_last() =~= before);
            assert(raw@.take(i + 1).last() == raw@[i as int]);
        }
        if cs[i] == sep {
            let piece = owned_range(raw, start, i);
            let ghost old_dv = out.deep_view();
            out.push(piece);
            proof {
                assert(out.deep_view() =~= old_dv.push(raw@.subrange(start as int, i as int)));
                assert(raw@.subrange(i + 1, i + 1) =~= Seq::<char>::empty());
            }
            start = i + 1;
        } else {
            proof {
                assert(raw@.subrange(start as int, i + 1) =~= raw@.subrange(start as int, i as int).push(raw@[i as int]));
            }
        }
        i = i + 1;
    }
    let last = owned_range(raw, start, n);
    let ghost old_dv = out.deep_view();
    out.push(last);
    proof {
        assert(out.deep_view() =~= old_dv.push(raw@.subrange(start as int, n as int)));
        assert(raw@.take(n as int) =~= raw@);
    }
    out
}

/// The comma-separated pieces of `raw`, in order.
pub fn split_commas(raw: &str) -> (r: Vec<String>)
    ensures r.deep_view() == split_on(raw@, ','),
{
    split_on_char(raw, ',')
}

/// Whether every character of `s` is whitespace.
fn all_whitespace(s: &Vec<char>) -> (b: bool)
    ensures b == all_ws(s@),
{
    let mut i: usize = 0;
    while i < s.len()
        invariant
            i <= s.len(),
            forall|j: int| 0 <= j < i ==> ws_char(#[trigger] s@[j]),
        decreases s.len() - i,
    {
        if !is_ws(s[i]) {
            return false;
        }
        i = i + 1;
    }
    true
}

/// Whether `role` is already the role of one of `pairs`.
fn role_taken(pairs: &Vec<(String, String)>, role: &String) -> (b: bool)
    ensures b == pair_roles(pair_views(pairs@)).contains(role@),
{
    let ghost roles = pair_roles(pair_views(pairs@));
    let mut i: usize = 0;
    while i < pairs.len()
        invariant
            i <= pairs.len(),
            roles == pair_roles(pair_views(pairs@)),
            roles.len() == pairs@.len(),
            forall|j: int| 0 <= j < i ==> roles[j] != role@,
        decreases pairs.len() - i,
    {
        proof { assert(roles[i as int] == pairs@[i as int].0@); }
        if pairs[i].0 == *role {
            return true;
        }
        i = i + 1;
    }
    false
}

/// Judge one piece against the pairs accepted before it.
fn check_piece(pairs: &Vec<(String, String)>, piece: &String) -> (r: Result<(String, String), String>)
    ensures
        match piece_verdict(pair_views(pairs@), piece@) {
            Ok(p) => r matches Ok(q) && q.0@ == p.0 && q.1@ == p.1,
            Err(m) => r matches Err(e) && e@ == m,
        },
{
    let cs = chars_of(piece.as_str());
    let mut k: usize = cs.len();
    while k > 0
        invariant
            cs@ == piece@,
            k <= cs@.len(),
            forall|j: int| k <= j < cs@.len() ==> cs@[j] != ':',
        ensures
            k == 0 || cs@[k - 1] == ':',
        decreases k,
    {
        if cs[k - 1] == ':' {
            break;
        }
        k = k - 1;
    }
    let found = k > 0;
    proof {
        lemma_last_index_of(piece@, ':');
    }
    if !found {
        proof {
            assert(forall|j: int| 0 <= j < piece@.len() ==> piece@[j] != ':');
            assert(last_index_of(piece@, ':') < 0);
        }
        let q = debug_quoted(piece.as_str());
        let m = String::from_str("malformed lock pair ").concat(q.as_str()).concat(": expected role:id");
        return Err(m);
    }
    let colon = k - 1;
    proof {
        assert(last_index_of(piece@, ':') == colon);
    }
    let role = owned_range(piece.as_str(), 0, colon);
    let id = owned_range(piece.as_str(), colon + 1, cs.len());
    proof {
        assert(role@ =~= piece@.take(colon as int));
        assert(id@ =~= piece@.skip(colon + 1));
    }
    let role_chars = chars_of(role.as_str());
    if all_whitespace(&role_chars) {
        let q = debug_quoted(piece.as_str());
        return Err(String::from_str("malformed lock pair ").concat(q.as_str()).concat(": empty role"));
    }
    let rn = role_chars.len();
    if is_ws(role_chars[0]) || is_ws(role_chars[rn - 1]) {
        let q = debug_quoted(piece.as_str());
        return Err(
            String::from_str("malformed lock pair ").concat(q.as_str()).concat(
                ": role has leading or trailing whitespace",
            ),
        );
    }
    if role_taken(pairs, &role) {
        let q = debug_quoted(role.as_str());
        return Err(String::from_str("malformed lock parameter: duplicate pair for role ").concat(q.as_str()));
    }
    if !is_uuid_format(id.as_str()) {
        let q = debug_quoted(role.as_str());
        return Err(String::from_str("malformed lock pair ").concat(q.as_str()).concat(": id is not a UUID"));
    }
    Ok((role, id))
}

/// Parse the `lock` query parameter: comma-separated `role:id` pairs,
/// each split at its last colon (a role may contain colons, a UUID
/// cannot). A refused piece is a `400` naming it: no colon, a blank or
/// whitespace-padded role, a role repeated (the lock holds one record
/// per role), or an id that is not a UUID.
pub fn parse_lock_pairs(raw: &str) -> (r: Result<Vec<(String, String)>, ApiError>)
    ensures
        match parse_pieces(split_on(raw@, ',')) {
            Ok(pairs) => r matches Ok(v) && pair_views(v@) == pairs,
            Err(m) => r matches Err(e) && e.status == 400 && e.message@ == m,
        },
{
    let pieces = split_commas(raw);
    let ghost all = split_on(raw@, ',');
    let mut pairs: Vec<(String, String)> = Vec::new();
    let mut k: usize = 0;
    proof {
        assert(all.take(0) =~= Seq::<Seq<char>>::empty());
        assert(pair_views(pairs@) =~= Seq::<(Seq<char>, Seq<char>)>::empty());
    }
    while k < pieces.len()
        invariant
            all == split_on(raw@, ','),
            pieces.deep_view() == all,
            k <= pieces.len(),
            parse_pieces(all.take(k as int)) == Ok::<Seq<(Seq<char>, Seq<char>)>, Seq<char>>(
                pair_views(pairs@),
            ),
        decreases pieces.len() - k,
    {
        proof {
            assert(all.take(k + 1).drop_last() =~= all.take(k as int));
            assert(all.take(k + 1).last() == pieces@[k as int]@);
        }
        match check_piece(&pairs, &pieces[k]) {
            Ok(pair) => {
                let ghost before = pair_views(pairs@);
                pairs.push(pair);
                proof {
                    assert(pair_views(pairs@) =~= before.push((pairs@.last().0@, pairs@.last().1@)));
                }
            },
            Err(m) => {
                proof {
                    assert(parse_pieces(all.take(k + 1)) == Err::<Seq<(Seq<char>, Seq<char>)>, Seq<char>>(m@));
                    lemma_parse_err_sticks(all, k as int + 1);
                    assert(parse_pieces(all) == Err::<Seq<(Seq<char>, Seq<char>)>, Seq<char>>(m@));
                }
                return Err(ApiError::bad_request(m));
            },
        }
        k = k + 1;
    }
    proof { assert(all.take(k as int) =~= all); }
    Ok(pairs)
}

/// Once a prefix of the pieces is refused, every longer prefix is
/// refused with the same message.
proof fn lemma_parse_err_sticks(all: Seq<Seq<char>>, k: int)
    requires
        0 <= k <= all.len(),
        parse_pieces(all.take(k)) is Err,
    ensures
        parse_pieces(all) == parse_pieces(all.take(k)),
    decreases all.len() - k,
{
    if k < all.len() {
        assert(all.take(k + 1).drop_last() =~= all.take(k));
        lemma_parse_err_sticks(all, k + 1);
    } else {
        assert(all.take(k) =~= all);
    }
}

/// A lock record as the CLI presents it: role to id, plus where the id
/// sits on disk (probed by the caller).
#[derive(Clone, Debug)]
pub struct LockPair {
    pub role: String,
    pub id: String,
    /// The id is parked in the inactive area (restorable).
    pub in_inactive: bool,
    /// The id is retired in the archived area (never reusable).
    pub in_archived: bool,
}

/// A live registry entry reduced to the comparison key.
#[derive(Clone, Debug)]
pub struct LiveEntry {
    pub id: String,
    pub role: String,
}

/// The record a role keys to: the last one naming it (a map built from
/// the list keeps the later record).
pub open spec fn lock_for(lock: Seq<LockPair>, role: Seq<char>) -> Option<LockPair>
    decreases lock.len(),
{
    if lock.len() == 0 {
        None
    } else if lock.last().role@ == role {
        Some(lock.last())
    } else {
        lock_for(lock.drop_last(), role)
    }
}

/// The ids of the live entries carrying `role`, in list order.
pub open spec fn live_ids(live: Seq<LiveEntry>, role: Seq<char>) -> Seq<Seq<char>>
    decreases live.len(),
{
    if live.len() == 0 {
        Seq::empty()
    } else {
        let rest = live_ids(live.drop_last(), role);
        if live.last().role@ == role {
            rest.push(live.last().id@)
        } else {
            rest
        }
    }
}

/// A lock record drifts when its id is live under another role.
pub open spec fn drifts(pair: LockPair, role: Seq<char>, all_live: Seq<LiveEntry>) -> bool {
    exists|i: int| 0 <= i < all_live.len() && #[trigger] all_live[i].id@ == pair.id@ && all_live[i].role@ != role
}

/// The disposition rules, in order: an unmanaged role is exempt (or
/// retained when absent) before anything else, then more than one live
/// body is a duplicate, then the declared and undeclared splits.
pub open spec fn disposition_for(decl: Option<RoleDeclView>, lock: Option<LockPair>, n_live: nat) -> RoleDisposition {
    if decl matches Some(d) && d.unmanaged {
        if n_live == 0 { RoleDisposition::Retain } else { RoleDisposition::Exempt }
    } else if n_live > 1 {
        RoleDisposition::Duplicate
    } else if decl is Some {
        if n_live > 0 {
            if lock is Some { RoleDisposition::Active } else { RoleDisposition::Adopt }
        } else if lock matches Some(p) && p.in_inactive {
            RoleDisposition::Restore
        } else {
            RoleDisposition::Spawn
        }
    } else if n_live > 0 {
        RoleDisposition::Deactivate
    } else {
        RoleDisposition::Retain
    }
}

pub open spec fn decl_view(d: Option<RoleDeclaration>) -> Option<RoleDeclView> {
    match d {
        Some(x) => Some(x@),
        None => None,
    }
}

pub open spec fn root_name() -> Seq<char> {
    seq!['r', 'o', 'o', 't']
}

/// `row` is the status row of `role` for the given declaration entry,
/// lock record, live ids and drift pool.
pub open spec fn row_is(
    row: TeamRoleStatus,
    role: Seq<char>,
    decl: Option<RoleDeclView>,
    lock: Option<LockPair>,
    live: Seq<Seq<char>>,
    all_live: Seq<LiveEntry>,
) -> bool {
    &&& row.role@ == role
    &&& decl_view(row.declaration) == decl
    &&& opt_view(row.lock_id) == (match lock { Some(p) => Some(p.id@), None => None::<Seq<char>> })
    &&& row.lock_drift == (lock matches Some(p) && drifts(p, role, all_live))
    &&& row.lock_inactive == (lock matches Some(p) && p.in_inactive)
    &&& row.root_conflict == (decl is Some && role == root_name())
    &&& row.live.deep_view() == live
    &&& row.disposition == disposition_for(decl, lock, live.len())
}

/// The declared role names, in declaration order.
pub open spec fn declared_names(roles: Seq<RoleDeclaration>) -> Seq<Seq<char>> {
    roles.map_values(|r: RoleDeclaration| r.name@)
}

/// A role the lock or the live set names and the declaration does not.
pub open spec fn undeclared(name: Seq<char>, roles: Seq<RoleDeclaration>, lock: Seq<LockPair>, live: Seq<LiveEntry>) -> bool {
    &&& !declared_names(roles).contains(name)
    &&& (exists|i: int| 0 <= i < lock.len() && #[trigger] lock[i].role@ == name)
        || (exists|i: int| 0 <= i < live.len() && #[trigger] live[i].role@ == name)
}

/// The roles of a list of rows.
pub open spec fn row_roles(rows: Seq<TeamRoleStatus>) -> Seq<Seq<char>> {
    rows.map_values(|r: TeamRoleStatus| r.role@)
}

/// The last record of `lock` naming `role`, if any.
pub fn find_lock<'a>(lock: &'a Vec<LockPair>, role: &String) -> (r: Option<&'a LockPair>)
    ensures
        match lock_for(lock@, role@) {
            Some(p) => r == Some(&p),
            None => r is None,
        },
{
    let mut i: usize = lock.len();
    proof { assert(lock@.take(i as int) =~= lock@); }
    while i > 0
        invariant
            i <= lock.len(),
            lock_for(lock@, role@) == lock_for(lock@.take(i as int), role@),
        decreases i,
    {
        proof { assert(lock@.take(i as int).drop_last() =~= lock@.take(i - 1)); }
        if lock[i - 1].role == *role {
            return Some(&lock[i - 1]);
        }
        i = i - 1;
    }
    None
}

/// The ids of `live` entries carrying `role`.
fn ids_of_role(live: &Vec<LiveEntry>, role: &String) -> (r: Vec<String>)
    ensures r.deep_view() == live_ids(live@, role@),
{
    let mut out: Vec<String> = Vec::new();
    let mut i: usize = 0;
    while i < live.len()
        invariant
            i <= live.len(),
            out.deep_view() == live_ids(live@.take(i as int), role@),
        decreases live.len() - i,
    {
        proof { assert(live@.take(i + 1).drop_last() =~= live@.take(i as int)); }
        if live[i].role == *role {
            let ghost before = out.deep_view();
            out.push(live[i].id.clone());
            proof { assert(out.deep_view() =~= before.push(live@[i as int].id@)); }
        }
        i = i + 1;
    }
    proof { assert(live@.take(i as int) =~= live@); }
    out
}

/// Whether `pair`'s id is live under a role other than `role`.
fn lock_drifts(pair: &LockPair, role: &String, all_live: &Vec<LiveEntry>) -> (b: bool)
    ensures b == drifts(*pair, role@, all_live@),
{
    let mut i: usize = 0;
    while i < all_live.len()
        invariant
            i <= all_live.len(),
            forall|j: int| 0 <= j < i ==> !(#[trigger] all_live@[j].id@ == pair.id@ && all_live@[j].role@ != role@),
        decreases all_live.len() - i,
    {
        if all_live[i].id == pair.id && all_live[i].role != *role {
            return true;
        }
        i = i + 1;
    }
    false
}

/// Resolve one role's row: gather the three views, then apply the
/// disposition rules.
fn build_row(
    role: &String,
    declaration: Option<&RoleDeclaration>,
    lock: Option<&LockPair>,
    live: Vec<String>,
    all_live: &Vec<LiveEntry>,
) -> (row: TeamRoleStatus)
    ensures
        row_is(
            row,
            role@,
            match declaration { Some(d) => Some(d@), None => None },
            match lock { Some(p) => Some(*p), None => None },
            live.deep_view(),
            all_live@,
        ),
{
    let lock_drift = match lock {
        Some(pair) => lock_drifts(pair, role, all_live),
        None => false,
    };
    let n = live.len();
    let disposition = match declaration {
        Some(d) if d.unmanaged => {
            if n == 0 { RoleDisposition::Retain } else { RoleDisposition::Exempt }
        },
        _ => {
            if n > 1 {
                RoleDisposition::Duplicate
            } else if declaration.is_some() {
                if n > 0 {
                    if lock.is_some() { RoleDisposition::Active } else { RoleDisposition::Adopt }
                } else {
                    match lock {
                        Some(p) if p.in_inactive => RoleDisposition::Restore,
                        _ => RoleDisposition::Spawn,
                    }
                }
            } else if n > 0 {
                RoleDisposition::Deactivate
            } else {
                RoleDisposition::Retain
            }
        },
    };
    let root = "root";
    proof {
        reveal_strlit("root");
        assert(root@ =~= root_name());
    }
    let root_conflict = declaration.is_some() && crate::config::str_eq(role.as_str(), root);
    TeamRoleStatus {
        role: role.clone(),
        declaration: match declaration {
            Some(d) => Some(d.copy()),
            None => None,
        },
        lock_id: match lock {
            Some(p) => Some(p.id.clone()),
            None => None,
        },
        lock_drift,
        lock_inactive: match lock {
            Some(p) => p.in_inactive,
            None => false,
        },
        root_conflict,
        live,
        disposition,
    }
}

/// `rows` is the status table of the declared roles against the lock
/// and the live set: the declared roles first, in declaration order,
/// then every undeclared role the lock or the live set names, each
/// once, by name.
pub open spec fn status_table(
    roles: Seq<RoleDeclaration>,
    lock: Seq<LockPair>,
    live: Seq<LiveEntry>,
    all_live: Seq<LiveEntry>,
    rows: Seq<TeamRoleStatus>,
) -> bool {
    &&& rows.len() >= roles.len()
    &&& forall|i: int| 0 <= i < roles.len() ==> {
        let d = #[trigger] roles[i];
        row_is(rows[i], d.name@, Some(d@), lock_for(lock, d.name@), live_ids(live, d.name@), all_live)
    }
    &&& forall|i: int| roles.len() <= i < rows.len() ==> {
        let name = #[trigger] rows[i].role@;
        row_is(rows[i], name, None, lock_for(lock, name), live_ids(live, name), all_live)
    }
    &&& sorted_strict(row_roles(rows).skip(roles.len() as int))
    &&& forall|name: Seq<char>| row_roles(rows).skip(roles.len() as int).contains(name)
        <==> undeclared(name, roles, lock, live)
}

/// The three-way diff: declaration versus lock versus live registry.
/// One row per role of the union of the three: the declared roles
/// first, in declaration order, then the undeclared ones by name.
/// Presence-level only. `all_live` (root included) feeds only the drift
/// check, so a record pointing at the root reads as drifted.
pub fn compare_team(
    declaration: &TeamDeclaration,
    lock: &Vec<LockPair>,
    live: &Vec<LiveEntry>,
    all_live: &Vec<LiveEntry>,
) -> (rows: Vec<TeamRoleStatus>)
    ensures
        status_table(declaration.roles@, lock@, live@, all_live@, rows@),
{
    let roles = &declaration.roles;
    let mut rows: Vec<TeamRoleStatus> = Vec::new();
    let mut i: usize = 0;
    while i < roles.len()
        invariant
            i <= roles.len(),
            rows@.len() == i,
            forall|k: int| 0 <= k < i ==> {
                let d = #[trigger] roles@[k];
                row_is(rows@[k], d.name@, Some(d@), lock_for(lock@, d.name@), live_ids(live@, d.name@), all_live@)
            },
        decreases roles.len() - i,
    {
        let d = &roles[i];
        let found = find_lock(lock, &d.name);
        let ids = ids_of_role(live, &d.name);
        let row = build_row(&d.name, Some(d), found, ids, all_live);
        rows.push(row);
        i = i + 1;
    }
    let names = declared_role_names(roles);
    let mut und: Vec<String> = Vec::new();
    let mut k: usize = 0;
    while k < lock.len()
        invariant
            names.deep_view() == declared_names(roles@),
            k <= lock.len(),
            sorted_strict(und.deep_view()),
            forall|name: Seq<char>| und.deep_view().contains(name) <==> (!declared_names(roles@).contains(name)
                && exists|j: int| 0 <= j < k && #[trigger] lock@[j].role@ == name),
        decreases lock.len() - k,
    {
        if !contains_string(&names, &lock[k].role) {
            insert_sorted(&mut und, lock[k].role.clone());
        }
        proof {
            assert forall|name: Seq<char>| und.deep_view().contains(name) <==> (!declared_names(roles@).contains(name)
                && exists|j: int| 0 <= j < k + 1 && #[trigger] lock@[j].role@ == name) by {
                if exists|j: int| 0 <= j < k + 1 && #[trigger] lock@[j].role@ == name {
                    let j = choose|j: int| 0 <= j < k + 1 && #[trigger] lock@[j].role@ == name;
                    if j < k {
                        assert(exists|j: int| 0 <= j < k && #[trigger] lock@[j].role@ == name);
                    }
                }
                if exists|j: int| 0 <= j < k && #[trigger] lock@[j].role@ == name {
                    let j = choose|j: int| 0 <= j < k && #[trigger] lock@[j].role@ == name;
                    assert(0 <= j < k + 1 && lock@[j].role@ == name);
                }
            }
        }
        k = k + 1;
    }
    let mut m: usize = 0;
    while m < live.len()
        invariant
            names.deep_view() == declared_names(roles@),
            m <= live.len(),
            sorted_strict(und.deep_view()),
            forall|name: Seq<char>| und.deep_view().contains(name) <==> (!declared_names(roles@).contains(name)
                && ((exists|j: int| 0 <= j < lock.len() && #[trigger] lock@[j].role@ == name)
                    || exists|j: int| 0 <= j < m && #[trigger] live@[j].role@ == name)),
        decreases live.len() - m,
    {
        if !contains_string(&names, &live[m].role) {
            insert_sorted(&mut und, live[m].role.clone());
        }
        proof {
            assert forall|name: Seq<char>| und.deep_view().contains(name) <==> (!declared_names(roles@).contains(name)
                && ((exists|j: int| 0 <= j < lock.len() && #[trigger] lock@[j].role@ == name)
                    || exists|j: int| 0 <= j < m + 1 && #[trigger] live@[j].role@ == name)) by {
                if exists|j: int| 0 <= j < m + 1 && #[trigger] live@[j].role@ == name {
                    let j = choose|j: int| 0 <= j < m + 1 && #[trigger] live@[j].role@ == name;
                    if j < m {
                        assert(exists|j: int| 0 <= j < m && #[trigger] live@[j].role@ == name);
                    }
                }
                if exists|j: int| 0 <= j < m && #[trigger] live@[j].role@ == name {
                    let j = choose|j: int| 0 <= j < m && #[trigger] live@[j].role@ == name;
                    assert(0 <= j < m + 1 && live@[j].role@ == name);
                }
            }
        }
        m = m + 1;
    }
    let nd = rows.len();
    let mut u: usize = 0;
    while u < und.len()
        invariant
            nd == roles@.len(),
            u <= und.len(),
            rows@.len() == nd + u,
            forall|k: int| 0 <= k < nd ==> {
                let d = #[trigger] roles@[k];
                row_is(rows@[k], d.name@, Some(d@), lock_for(lock@, d.name@), live_ids(live@, d.name@), all_live@)
            },
            forall|k: int| nd <= k < rows@.len() ==> {
                let name = #[trigger] rows@[k].role@;
                row_is(rows@[k], name, None, lock_for(lock@, name), live_ids(live@, name), all_live@)
            },
            row_roles(rows@).skip(nd as int) == und.deep_view().take(u as int),
        decreases und.len() - u,
    {
        let name = &und[u];
        let found = find_lock(lock, name);
        let ids = ids_of_role(live, name);
        let row = build_row(name, None, found, ids, all_live);
        let ghost before = row_roles(rows@).skip(nd as int);
        rows.push(row);
        proof {
            assert(row_roles(rows@).skip(nd as int) =~= before.push(und.deep_view()[u as int]));
            assert(und.deep_view().take(u + 1) =~= und.deep_view().take(u as int).push(und.deep_view()[u as int]));
        }
        u = u + 1;
    }
    proof {
        assert(und.deep_view().take(u as int) =~= und.deep_view());
        assert forall|name: Seq<char>| row_roles(rows@).skip(nd as int).contains(name)
            <==> undeclared(name, roles@, lock@, live@) by {}
    }
    rows
}

/// The names of `roles`, in order.
fn declared_role_names(roles: &Vec<RoleDeclaration>) -> (r: Vec<String>)
    ensures r.deep_view() == declared_names(roles@),
{
    let mut out: Vec<String> = Vec::new();
    let mut i: usize = 0;
    while i < roles.len()
        invariant
            i <= roles.len(),
            out.deep_view() == declared_names(roles@).take(i as int),
        decreases roles.len() - i,
    {
        let ghost before = out.deep_view();
        out.push(roles[i].name.clone());
        proof {
            assert(out.deep_view() =~= before.push(roles@[i as int].name@));
            assert(declared_names(roles@).take(i + 1) =~= declared_names(roles@).take(i as int).push(roles@[i as int].name@));
        }
        i = i + 1;
    }
    proof { assert(declared_names(roles@).take(i as int) =~= declared_names(roles@)); }
    out
}

/// Whether `x` is one of `v`.
pub fn contains_string(v: &Vec<String>, x: &String) -> (b: bool)
    ensures b == v.deep_view().contains(x@),
{
    let mut i: usize = 0;
    while i < v.len()
        invariant
            i <= v.len(),
            forall|j: int| 0 <= j < i ==> #[trigger] v.deep_view()[j] != x@,
        decreases v.len() - i,
    {
        proof { assert(v.deep_view()[i as int] == v@[i as int]@); }
        if v[i] == *x {
            proof { assert(v.deep_view()[i as int] == x@); }
            return true;
        }
        i = i + 1;
    }
    false
}

} // verus!
