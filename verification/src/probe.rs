//! The profile probe's request bounds: the probe builds throwaway
//! backends and spends real inference, so only the operator may ask, and
//! one request carries a bounded number of endpoints and tier profiles.
use vstd::prelude::*;
use vstd::string::StringExecFns;
use crate::auth::{ApiError, Identity, require_operator};
use crate::fmt::{decimal, display_usize};

verus! {

/// The total of `counts`.
pub open spec fn total(counts: Seq<usize>) -> int
    decreases counts.len(),
{
    if counts.len() == 0 { 0 } else { total(counts.drop_last()) + counts.last() }
}

proof fn lemma_total_prefix(counts: Seq<usize>, i: int)
    requires 0 <= i <= counts.len(),
    ensures 0 <= total(counts.take(i)) <= total(counts),
    decreases counts.len() - i,
{
    if i < counts.len() {
        lemma_total_prefix(counts, i + 1);
        assert(counts.take(i + 1).drop_last() =~= counts.take(i));
    } else {
        assert(counts.take(i) =~= counts);
    }
    lemma_total_nonneg(counts.take(i));
}

proof fn lemma_total_nonneg(counts: Seq<usize>)
    ensures total(counts) >= 0,
    decreases counts.len(),
{
    if counts.len() > 0 {
        lemma_total_nonneg(counts.drop_last());
    }
}

/// Check a probe request before any backend is built: operator only
/// (`403`), at most `max_endpoints` endpoints (`400`), then at most
/// `max_profiles` profiles over all tiers (`400`). `tier_profiles` holds
/// each tier's profile count.
pub fn probe_request_check(
    identity: &Identity,
    endpoints: usize,
    tier_profiles: &Vec<usize>,
    max_endpoints: usize,
    max_profiles: usize,
) -> (r: Result<(), ApiError>)
    requires total(tier_profiles@) <= usize::MAX,
    ensures
        !(identity is Operator) ==> (r matches Err(e) && e.status == 403
            && e.message@ == "operator token required"@),
        identity is Operator && endpoints > max_endpoints ==> (r matches Err(e) && e.status == 400
            && e.message@ == "probe request carries "@ + decimal(endpoints as nat) + " endpoints; at most "@
                + decimal(max_endpoints as nat) + " per request"@),
        identity is Operator && endpoints <= max_endpoints && total(tier_profiles@) > max_profiles ==> (r matches Err(e)
            && e.status == 400
            && e.message@ == "probe request carries "@ + decimal(total(tier_profiles@) as nat) + " tier profiles; at most "@
                + decimal(max_profiles as nat) + " per request"@),
        identity is Operator && endpoints <= max_endpoints && total(tier_profiles@) <= max_profiles ==> r is Ok,
{
    match require_operator(identity) {
        Ok(()) => {},
        Err(e) => return Err(e),
    }
    if endpoints > max_endpoints {
        return Err(ApiError::bad_request(
            String::from_str("probe request carries ").concat(display_usize(endpoints).as_str())
                .concat(" endpoints; at most ").concat(display_usize(max_endpoints).as_str()).concat(" per request"),
        ));
    }
    let mut sum: usize = 0;
    let mut i: usize = 0;
    while i < tier_profiles.len()
        invariant
            i <= tier_profiles.len(),
            total(tier_profiles@) <= usize::MAX,
            sum == total(tier_profiles@.take(i as int)),
        decreases tier_profiles.len() - i,
    {
        proof {
            assert(tier_profiles@.take(i + 1).drop_last() =~= tier_profiles@.take(i as int));
            lemma_total_prefix(tier_profiles@, i + 1);
        }
        sum = sum + tier_profiles[i];
        i = i + 1;
    }
    proof { assert(tier_profiles@.take(i as int) =~= tier_profiles@); }
    if sum > max_profiles {
        return Err(ApiError::bad_request(
            String::from_str("probe request carries ").concat(display_usize(sum).as_str())
                .concat(" tier profiles; at most ").concat(display_usize(max_profiles).as_str()).concat(" per request"),
        ));
    }
    Ok(())
}

} // verus!
