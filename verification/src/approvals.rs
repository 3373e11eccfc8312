//! Deferred-action approvals as superiors see them: whose queues a
//! caller may read, which entries it sees, in what order and page, and
//! the decision a superior sends back.
use vstd::prelude::*;
use vstd::string::StringExecFns;
use crate::agents::superior_ok;
use crate::auth::{ApiError, Identity};
use crate::registry::{AgentRegistry, RegistryEntry};

verus! {

/// Where a deferred action stands.
#[derive(Clone, Copy, Debug, PartialEq, Eq, Structural)]
pub enum ApprovalStatus {
    /// Deferred, not yet committed for review: invisible to superiors.
    Pending,
    Committed,
    Approved,
    Denied,
    Redeemed,
    Cancelled,
}

/// One deferred action in an agent's queue.
#[derive(Clone, Debug)]
pub struct ApprovalEntry {
    pub id: String,
    pub agent_id: String,
    /// The deferred action, as the queue renders it.
    pub content: String,
    pub commit_reason: Option<String>,
    pub status: ApprovalStatus,
    pub deny_reason: Option<String>,
    /// Unix seconds of the deferral.
    pub created_at: i64,
}

/// The most entries one page holds.
pub const MAX_APPROVAL_PAGE: u64 = 20;

/// The page size when none is asked for.
pub const DEFAULT_APPROVAL_PAGE: u64 = 5;

/// The queues a caller reads, in registry order: live agents only (a
/// faulted entry has no queue), the caller a superior of each (the
/// operator of all), and only the named agent when one is asked for.
pub open spec fn owners_spec(
    m: Map<Seq<char>, RegistryEntry>,
    l: Seq<(String, RegistryEntry)>,
    identity: Identity,
    requested_by: Option<Seq<char>>,
) -> Seq<Seq<char>>
    decreases l.len(),
{
    if l.len() == 0 {
        Seq::empty()
    } else {
        let prev = owners_spec(m, l.drop_last(), identity, requested_by);
        let (k, e) = (l.last().0, l.last().1);
        if e is Live && superior_ok(m, identity, k@) && (requested_by matches Some(r) ==> r == k@) {
            prev.push(k@)
        } else {
            prev
        }
    }
}

/// The agents whose queues the caller may list (see [`owners_spec`]).
pub fn approval_owners(registry: &AgentRegistry, identity: &Identity, requested_by: &Option<String>) -> (r: Vec<String>)
    requires registry.wf(),
    ensures
        r.deep_view() == owners_spec(
            registry.map(),
            registry.listing(),
            *identity,
            match requested_by { Some(x) => Some(x@), None => None },
        ),
{
    let entries = registry.iter();
    let ghost l = registry.listing();
    let ghost rb = match requested_by { Some(x) => Some(x@), None => None::<Seq<char>> };
    let mut out: Vec<String> = Vec::new();
    let mut i: usize = 0;
    while i < entries.len()
        invariant
            registry.wf(),
            entries@ == l,
            l == registry.listing(),
            rb == match requested_by { Some(x) => Some(x@), None => None::<Seq<char>> },
            i <= entries.len(),
            out.deep_view() == owners_spec(registry.map(), l.take(i as int), *identity, rb),
        decreases entries.len() - i,
    {
        proof {
            assert(l.take(i + 1).drop_last() =~= l.take(i as int));
            assert(l.take(i + 1).last() == l[i as int]);
        }
        let (k, e) = (&entries[i].0, &entries[i].1);
        let wanted = match requested_by {
            Some(x) => *x == *k,
            None => true,
        };
        if e.as_live().is_some() && wanted && registry.require_superior(identity, k).is_ok() {
            let ghost pre = out.deep_view();
            out.push(k.clone());
            proof { assert(out.deep_view() =~= pre.push(k@)); }
        }
        i = i + 1;
    }
    proof { assert(l.take(i as int) =~= l); }
    out
}

/// What a caller sees of the collected entries: committed ones only
/// (never a pending deferral), of the asked status when one is named.
pub open spec fn visible(s: Seq<ApprovalEntry>, status: Option<ApprovalStatus>) -> Seq<ApprovalEntry>
    decreases s.len(),
{
    if s.len() == 0 {
        Seq::empty()
    } else {
        let prev = visible(s.drop_last(), status);
        let e = s.last();
        if e.status != ApprovalStatus::Pending && (status matches Some(f) ==> e.status == f) {
            prev.push(e)
        } else {
            prev
        }
    }
}

/// `x` goes strictly before `y`: newer first when descending, older
/// first otherwise.
pub open spec fn goes_before(x: ApprovalEntry, y: ApprovalEntry, desc: bool) -> bool {
    if desc { x.created_at > y.created_at } else { x.created_at < y.created_at }
}

/// Where `x` enters the ordered `s`: before the first entry it goes
/// before, after every entry it ties with (so equal times keep their
/// collection order).
pub open spec fn slot(s: Seq<ApprovalEntry>, x: ApprovalEntry, desc: bool) -> nat
    decreases s.len(),
{
    if s.len() == 0 {
        0
    } else if goes_before(x, s[0], desc) {
        0
    } else {
        1 + slot(s.drop_first(), x, desc)
    }
}

/// The listing order: a stable sort by time.
pub open spec fn ordered(s: Seq<ApprovalEntry>, desc: bool) -> Seq<ApprovalEntry>
    decreases s.len(),
{
    if s.len() == 0 {
        Seq::empty()
    } else {
        let t = ordered(s.drop_last(), desc);
        t.insert(slot(t, s.last(), desc) as int, s.last())
    }
}

/// The page window of `s`.
pub open spec fn window(s: Seq<ApprovalEntry>, offset: nat, limit: nat) -> Seq<ApprovalEntry> {
    let start = if offset < s.len() { offset } else { s.len() };
    let end = if start + limit < s.len() { start + limit } else { s.len() };
    s.subrange(start as int, end as int)
}

/// The page size: the asked limit (five when absent) within one to
/// twenty.
pub open spec fn page_size(limit: Option<u64>) -> nat {
    let want = match limit { Some(l) => l as nat, None => DEFAULT_APPROVAL_PAGE as nat };
    if want < 1 { 1 } else if want > MAX_APPROVAL_PAGE { MAX_APPROVAL_PAGE as nat } else { want }
}

proof fn lemma_slot(s: Seq<ApprovalEntry>, x: ApprovalEntry, desc: bool, i: int)
    requires
        0 <= i <= s.len(),
        forall|j: int| 0 <= j < i ==> !goes_before(x, #[trigger] s[j], desc),
        i == s.len() || goes_before(x, s[i], desc),
    ensures
        slot(s, x, desc) == i,
    decreases s.len(),
{
    if s.len() > 0 && i > 0 {
        assert(!goes_before(x, s[0], desc));
        assert forall|j: int| 0 <= j < i - 1 implies !goes_before(x, #[trigger] s.drop_first()[j], desc) by {
            assert(s.drop_first()[j] == s[j + 1]);
        }
        if i < s.len() {
            assert(s.drop_first()[i - 1] == s[i]);
        }
        lemma_slot(s.drop_first(), x, desc, i - 1);
    }
}

/// Sort the visible entries into listing order (see [`ordered`]).
fn order_entries(entries: Vec<ApprovalEntry>, desc: bool) -> (r: Vec<ApprovalEntry>)
    ensures r@ == ordered(entries@, desc),
{
    let ghost orig = entries@;
    assert(orig.len() == entries.len());
    let mut rest = entries;
    let mut out: Vec<ApprovalEntry> = Vec::new();
    let mut k: usize = 0;
    while rest.len() > 0
        invariant
            k + rest@.len() == orig.len(),
            orig.len() <= usize::MAX,
            rest@ == orig.skip(k as int),
            out@ == ordered(orig.take(k as int), desc),
        decreases rest@.len(),
    {
        let x = rest.remove(0);
        proof {
            assert(orig.take(k + 1).drop_last() =~= orig.take(k as int));
            assert(orig.take(k + 1).last() == orig[k as int]);
            assert(x == orig[k as int]);
            assert(rest@ =~= orig.skip(k + 1));
        }
        let mut i: usize = 0;
        while i < out.len()
            invariant
                i <= out.len(),
                forall|j: int| 0 <= j < i ==> !goes_before(x, #[trigger] out@[j], desc),
            ensures
                i <= out.len(),
                forall|j: int| 0 <= j < i ==> !goes_before(x, #[trigger] out@[j], desc),
                i == out@.len() || goes_before(x, out@[i as int], desc),
            decreases out.len() - i,
        {
            let before = if desc { x.created_at > out[i].created_at } else { x.created_at < out[i].created_at };
            if before {
                break;
            }
            i = i + 1;
        }
        proof {
            lemma_slot(out@, x, desc, i as int);
        }
        out.insert(i, x);
        k = k + 1;
    }
    proof { assert(orig.take(k as int) =~= orig); }
    out
}

/// One listing page: the visible entries (see [`visible`]) in time
/// order, newest first unless `order` is `asc`, from `offset` (an
/// offset beyond the machine's range is a `400`), at most
/// [`page_size`] of them; with the count of all visible entries.
pub fn approval_page(
    entries: Vec<ApprovalEntry>,
    status: Option<ApprovalStatus>,
    order: &Option<String>,
    offset: Option<u64>,
    limit: Option<u64>,
) -> (r: Result<(Vec<ApprovalEntry>, usize), ApiError>)
    ensures
        ({
            let desc = !(order matches Some(o) && o@ == "asc"@);
            let all = ordered(visible(entries@, status), desc);
            let off = match offset { Some(o) => o as nat, None => 0 };
            if off > usize::MAX {
                r matches Err(e) && e.status == 400
                    && e.message@ == "invalid offset: out of range integral type conversion attempted"@
            } else {
                r matches Ok(p) && p.1 == all.len() && p.0@ == window(all, off, page_size(limit))
            }
        }),
{
    let off64: u64 = match offset {
        Some(o) => o,
        None => 0,
    };
    if off64 as u128 > usize::MAX as u128 {
        return Err(ApiError::bad_request(String::from_str(
            "invalid offset: out of range integral type conversion attempted",
        )));
    }
    let off = off64 as usize;
    let desc = match order {
        Some(o) => !crate::config::str_eq(o.as_str(), "asc"),
        None => true,
    };
    let ghost orig = entries@;
    assert(orig.len() == entries.len());
    let mut rest = entries;
    let mut kept: Vec<ApprovalEntry> = Vec::new();
    let mut k: usize = 0;
    while rest.len() > 0
        invariant
            k + rest@.len() == orig.len(),
            orig.len() <= usize::MAX,
            rest@ == orig.skip(k as int),
            kept@ == visible(orig.take(k as int), status),
        decreases rest@.len(),
    {
        let x = rest.remove(0);
        proof {
            assert(orig.take(k + 1).drop_last() =~= orig.take(k as int));
            assert(orig.take(k + 1).last() == orig[k as int]);
            assert(x == orig[k as int]);
            assert(rest@ =~= orig.skip(k + 1));
        }
        let shown = x.status != ApprovalStatus::Pending && match status {
            Some(f) => x.status == f,
            None => true,
        };
        if shown {
            kept.push(x);
        }
        k = k + 1;
    }
    proof { assert(orig.take(k as int) =~= orig); }
    let all = order_entries(kept, desc);
    let total = all.len();
    let want: u64 = match limit {
        Some(l) => l,
        None => DEFAULT_APPROVAL_PAGE,
    };
    let size: usize = if want < 1 { 1 } else if want > MAX_APPROVAL_PAGE { 20 } else { want as usize };
    let start: usize = if off < total { off } else { total };
    let end: usize = if size <= total - start { start + size } else { total };
    let mut page: Vec<ApprovalEntry> = Vec::new();
    let mut rest = all;
    let ghost sorted = rest@;
    let mut idx: usize = 0;
    while rest.len() > 0
        invariant
            idx + rest@.len() == sorted.len(),
            sorted.len() <= usize::MAX,
            rest@ == sorted.skip(idx as int),
            start <= end <= sorted.len(),
            page@ == sorted.subrange(start as int, if idx < start { start as int } else if idx < end { idx as int } else { end as int }),
        decreases rest@.len(),
    {
        let x = rest.remove(0);
        proof {
            assert(x == sorted[idx as int]);
            assert(rest@ =~= sorted.skip(idx + 1));
        }
        if start <= idx && idx < end {
            let ghost pre = page@;
            page.push(x);
            proof {
                assert(page@ =~= sorted.subrange(start as int, idx + 1));
            }
        }
        idx = idx + 1;
    }
    proof {
        assert(page@ =~= window(sorted, off as nat, page_size(limit)));
    }
    Ok((page, total))
}

/// A superior's decision on a committed action.
#[derive(Clone, Copy, Debug, PartialEq, Eq, Structural)]
pub enum Decision {
    Approve,
    Deny,
}

/// The decision a body spells: `approve` or `deny` (`400` otherwise).
pub fn parse_decision(raw: &str) -> (r: Result<Decision, ApiError>)
    ensures
        raw@ == "approve"@ ==> r == Ok::<Decision, ApiError>(Decision::Approve),
        raw@ == "deny"@ ==> r == Ok::<Decision, ApiError>(Decision::Deny),
        raw@ != "approve"@ && raw@ != "deny"@ ==> (r matches Err(e) && e.status == 400
            && e.message@ == "decision must be 'approve' or 'deny'"@),
{
    proof {
        reveal_strlit("approve");
        reveal_strlit("deny");
        assert("deny"@.len() != "approve"@.len());
    }
    if crate::config::str_eq(raw, "approve") {
        Ok(Decision::Approve)
    } else if crate::config::str_eq(raw, "deny") {
        Ok(Decision::Deny)
    } else {
        Err(ApiError::bad_request(String::from_str("decision must be 'approve' or 'deny'")))
    }
}

/// The recorded reason of a denial: the given one, or `denied`.
pub fn deny_reason(reason: &Option<String>) -> (r: String)
    ensures r@ == match reason { Some(x) => x@, None => "denied"@ },
{
    match reason {
        Some(x) => x.clone(),
        None => String::from_str("denied"),
    }
}

/// What an approval must still pass once the caller is known to be a
/// superior of the owner.
#[derive(Clone, Debug)]
pub enum ApproveGate {
    /// No gate: the operator, or a deferred action that is not a shell
    /// command.
    Open,
    /// The caller's own classify rule-set must allow `command`: a
    /// superior may not approve for a subordinate what its own policy
    /// would gate.
    Classify { caller: String, command: String },
}

/// What an approval by `identity` must pass: a deferred `bash_exec`
/// (`is_shell`) approved by an agent is held to that agent's classify
/// rules, which needs its `command` argument (`400` without one) and the
/// caller live in the registry (`500` otherwise; a faulted agent holds no
/// token, so that branch is defensive).
pub fn approve_gate(registry: &AgentRegistry, identity: &Identity, is_shell: bool, command: &Option<String>) -> (r: Result<ApproveGate, ApiError>)
    requires registry.wf(),
    ensures
        match identity {
            Identity::Operator => r matches Ok(ApproveGate::Open),
            Identity::Agent { id } => if !is_shell {
                r matches Ok(ApproveGate::Open)
            } else {
                match command {
                    None => r matches Err(e) && e.status == 400
                        && e.message@ == "cannot approve bash_exec: deferred action has no 'command' argument"@,
                    Some(c) => if !registry.map().contains_key(id@) {
                        r matches Err(e) && e.status == 500 && e.message@ == "caller agent not found in registry"@
                    } else if registry.map()[id@] is Faulted {
                        r matches Err(e) && e.status == 500 && e.message@ == "caller agent is faulted"@
                    } else {
                        r matches Ok(ApproveGate::Classify { caller, command: k }) && caller@ == id@ && k@ == c@
                    },
                }
            },
        },
{
    match identity {
        Identity::Operator => Ok(ApproveGate::Open),
        Identity::Agent { id } => {
            if !is_shell {
                return Ok(ApproveGate::Open);
            }
            let c = match command {
                Some(c) => c,
                None => return Err(ApiError::bad_request(String::from_str(
                    "cannot approve bash_exec: deferred action has no 'command' argument",
                ))),
            };
            let entry = match registry.get(id) {
                Some(e) => e,
                None => return Err(ApiError::internal(String::from_str("caller agent not found in registry"))),
            };
            if entry.as_live().is_none() {
                return Err(ApiError::internal(String::from_str("caller agent is faulted")));
            }
            Ok(ApproveGate::Classify { caller: id.clone(), command: c.clone() })
        },
    }
}

/// The verdict on an approval the caller's rules were asked about: allowed,
/// or `403` naming the decision it reached (`decision` as the classifier
/// spells it).
pub fn classify_verdict(allowed: bool, decision: &str) -> (r: Result<(), ApiError>)
    ensures
        allowed ==> r is Ok,
        !allowed ==> (r matches Err(e) && e.status == 403
            && e.message@ == "cannot approve bash_exec: caller's classify rule-set does not allow the command ("@
                + decision@ + "); a superior may not delegate a command its own policy would gate"@),
{
    if allowed {
        Ok(())
    } else {
        Err(ApiError::forbidden(
            String::from_str("cannot approve bash_exec: caller's classify rule-set does not allow the command (")
                .concat(decision)
                .concat("); a superior may not delegate a command its own policy would gate"),
        ))
    }
}

/// Law: the listing order is a stable time sort. It holds exactly the
/// visible entries, and no entry goes before an earlier-listed one.
pub proof fn law_listing_is_sorted_permutation(s: Seq<ApprovalEntry>, desc: bool)
    ensures
        ordered(s, desc).to_multiset() == s.to_multiset(),
        forall|i: int, j: int| 0 <= i < j < ordered(s, desc).len()
            ==> !goes_before(#[trigger] ordered(s, desc)[j], #[trigger] ordered(s, desc)[i], desc),
    decreases s.len(),
{
    broadcast use vstd::seq_lib::group_to_multiset_ensures;
    if s.len() > 0 {
        let t = ordered(s.drop_last(), desc);
        let x = s.last();
        law_listing_is_sorted_permutation(s.drop_last(), desc);
        lemma_slot_bounds(t, x, desc);
        let p = slot(t, x, desc) as int;
        vstd::seq_lib::to_multiset_insert(t, p, x);
        assert(s =~= s.drop_last().push(x));
        let u = t.insert(p, x);
        assert forall|i: int, j: int| 0 <= i < j < u.len() implies !goes_before(#[trigger] u[j], #[trigger] u[i], desc) by {
            if j < p {
                assert(u[i] == t[i] && u[j] == t[j]);
            } else if j == p {
                assert(u[i] == t[i]);
                assert(!goes_before(x, t[i], desc));
            } else if i < p {
                assert(u[i] == t[i] && u[j] == t[j - 1]);
            } else if i == p {
                assert(u[j] == t[j - 1]);
                // t[j-1] at or after the slot: x goes before t[p], and t[j-1] does not go before t[p]
                if j - 1 > p {
                    assert(!goes_before(t[j - 1], t[p], desc));
                }
            } else {
                assert(u[i] == t[i - 1] && u[j] == t[j - 1]);
            }
        }
    }
}

proof fn lemma_slot_bounds(s: Seq<ApprovalEntry>, x: ApprovalEntry, desc: bool)
    ensures
        slot(s, x, desc) <= s.len(),
        forall|j: int| 0 <= j < slot(s, x, desc) ==> !goes_before(x, #[trigger] s[j], desc),
        slot(s, x, desc) < s.len() ==> goes_before(x, s[slot(s, x, desc) as int], desc),
    decreases s.len(),
{
    if s.len() > 0 && !goes_before(x, s[0], desc) {
        lemma_slot_bounds(s.drop_first(), x, desc);
        assert forall|j: int| 0 <= j < slot(s, x, desc) implies !goes_before(x, #[trigger] s[j], desc) by {
            if j > 0 {
                assert(s[j] == s.drop_first()[j - 1]);
            }
        }
        if slot(s, x, desc) < s.len() {
            assert(s[slot(s, x, desc) as int] == s.drop_first()[slot(s, x, desc) - 1]);
        }
    }
}

/// Law: a page is the listing skipped by the offset, then cut to the
/// page size. Its `i`-th entry is the listing's entry `offset + i`; it
/// holds `size` entries, or what is left after the offset when fewer
/// remain, and nothing past the end.
pub proof fn law_page_is_skip_then_take(s: Seq<ApprovalEntry>, offset: nat, size: nat)
    ensures
        window(s, offset, size).len() == if offset >= s.len() {
            0
        } else if offset + size <= s.len() {
            size as int
        } else {
            s.len() - offset
        },
        forall|i: int| 0 <= i < window(s, offset, size).len() ==> #[trigger] window(s, offset, size)[i] == s[offset + i],
{
}

} // verus!
