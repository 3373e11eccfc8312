//! The tagma-wide token budget: its accounting, the read the budget
//! route reports, and the three write shapes an operator may send.
use vstd::prelude::*;
use vstd::string::StringExecFns;
use crate::auth::{ApiError, Identity, require_operator};
use crate::fmt::{debug_quote, debug_quoted, decimal, display_i128, display_u128, signed_decimal};
use crate::text::chars_of;

verus! {

/// Tokens granted, tokens consumed, and whether enforcement is off.
#[derive(Clone, Copy, Debug, PartialEq, Eq, Structural)]
pub struct TokenBudget {
    pub budget: u64,
    pub consumed: u64,
    /// Enforcement off; consumption is still counted.
    pub unlimited: bool,
}

/// The budget as the route reports it.
#[derive(Clone, Copy, Debug, PartialEq, Eq, Structural)]
pub struct TokenBudgetResponse {
    pub budget: u64,
    pub consumed: u64,
    pub remaining: u64,
    pub unlimited: bool,
}

/// One budget write: exactly one of the three shapes.
#[derive(Clone, Copy, Debug, PartialEq, Eq, Structural)]
pub struct TokenBudgetUpdateRequest {
    /// New remaining budget (the total becomes consumed + value).
    pub set_remaining: Option<u64>,
    /// Signed adjustment of the total.
    pub delta: Option<i64>,
    pub set_unlimited: bool,
}

impl TokenBudget {
    /// The reported view: an unlimited budget reports zero budget and
    /// zero remaining, with the true consumption; a limited one reports
    /// what is left (never below zero).
    pub fn snapshot(&self) -> (r: TokenBudgetResponse)
        ensures
            r.consumed == self.consumed,
            r.unlimited == self.unlimited,
            r.budget == if self.unlimited { 0 } else { self.budget },
            r.remaining == if self.unlimited || self.budget <= self.consumed { 0 } else { (self.budget - self.consumed) as u64 },
    {
        if self.unlimited {
            TokenBudgetResponse { budget: 0, consumed: self.consumed, remaining: 0, unlimited: true }
        } else {
            let remaining = if self.budget <= self.consumed { 0 } else { self.budget - self.consumed };
            TokenBudgetResponse { budget: self.budget, consumed: self.consumed, remaining, unlimited: false }
        }
    }

    /// Count consumed tokens (saturating at the counter's limit).
    pub fn record_usage(&mut self, input: u64, output: u64)
        ensures
            final(self).budget == old(self).budget,
            final(self).unlimited == old(self).unlimited,
            final(self).consumed == if old(self).consumed + input + output > u64::MAX {
                u64::MAX
            } else {
                (old(self).consumed + input + output) as u64
            },
    {
        let total: u128 = self.consumed as u128 + input as u128 + output as u128;
        self.consumed = if total > u64::MAX as u128 { u64::MAX } else { total as u64 };
    }
}

impl TokenBudget {
    /// Enforcement off, nothing consumed.
    pub fn unlimited() -> (b: TokenBudget)
        ensures b == (TokenBudget { budget: 0, consumed: 0, unlimited: true }),
    {
        TokenBudget { budget: 0, consumed: 0, unlimited: true }
    }

    /// A finite budget with `consumed` tokens already counted.
    pub fn new(budget: u64, consumed: u64) -> (b: TokenBudget)
        ensures b == (TokenBudget { budget, consumed, unlimited: false }),
    {
        TokenBudget { budget, consumed, unlimited: false }
    }

    /// Whether a finite budget is used up (a zero budget is paused from
    /// the start); an unlimited one never is.
    pub fn is_exceeded(&self) -> (r: bool)
        ensures r == (!self.unlimited && self.consumed >= self.budget),
    {
        !self.unlimited && self.consumed >= self.budget
    }
}

pub open spec fn is_digit(c: char) -> bool {
    '0' <= c && c <= '9'
}

/// The value of a run of decimal digits.
pub open spec fn digits_value(s: Seq<char>) -> nat
    decreases s.len(),
{
    if s.len() == 0 {
        0
    } else {
        digits_value(s.drop_last()) * 10 + ((s.last() as int) - ('0' as int)) as nat
    }
}

/// The multiplier of an amount suffix.
pub open spec fn suffix_factor(c: char) -> Option<nat> {
    if c == 'K' {
        Some(1_000)
    } else if c == 'M' {
        Some(1_000_000)
    } else if c == 'G' {
        Some(1_000_000_000)
    } else {
        None
    }
}

/// The digits part of an amount: all but a recognised suffix.
pub open spec fn amount_digits(s: Seq<char>) -> Seq<char> {
    if s.len() > 0 && suffix_factor(s.last()) is Some { s.drop_last() } else { s }
}

/// The multiplier of an amount: its suffix's, or one.
pub open spec fn amount_factor(s: Seq<char>) -> nat {
    if s.len() > 0 && suffix_factor(s.last()) is Some { suffix_factor(s.last())->Some_0 } else { 1 }
}

/// The token-amount grammar: a non-empty run of decimal digits,
/// optionally followed by one `K`, `M` or `G` (thousand, million,
/// billion). `None` for anything else, or for an amount beyond the
/// counter's range.
pub open spec fn token_amount(s: Seq<char>) -> Option<nat> {
    let digits = amount_digits(s);
    if digits.len() == 0 || !(forall|i: int| 0 <= i < digits.len() ==> is_digit(#[trigger] digits[i])) {
        None
    } else if digits_value(digits) * amount_factor(s) > u64::MAX {
        None
    } else {
        Some(digits_value(digits) * amount_factor(s))
    }
}

proof fn lemma_digits_prefix(s: Seq<char>, i: int)
    requires
        0 <= i <= s.len(),
        forall|j: int| 0 <= j < s.len() ==> is_digit(#[trigger] s[j]),
    ensures
        digits_value(s.take(i)) <= digits_value(s),
    decreases s.len(),
{
    if i < s.len() {
        assert(s.drop_last().take(i) =~= s.take(i));
        lemma_digits_prefix(s.drop_last(), i);
    } else {
        assert(s.take(i) =~= s);
    }
}

pub open spec fn msg_bad_amount() -> Seq<char> {
    "expected a whole number of tokens, optionally followed by K, M or G"@
}

/// Parse a token amount (see [`token_amount`]).
pub fn parse_token_amount(raw: &str) -> (r: Result<u64, String>)
    ensures
        match token_amount(raw@) {
            Some(v) => r == Ok::<u64, String>(v as u64),
            None => r matches Err(m) && m@ == msg_bad_amount(),
        },
{
    let cs = chars_of(raw);
    let n = cs.len();
    let mut end: usize = n;
    let mut factor: u128 = 1;
    if n > 0 {
        let last = cs[n - 1];
        if last == 'K' {
            end = n - 1;
            factor = 1_000;
        } else if last == 'M' {
            end = n - 1;
            factor = 1_000_000;
        } else if last == 'G' {
            end = n - 1;
            factor = 1_000_000_000;
        }
    }
    let ghost digits = amount_digits(raw@);
    proof {
        assert(digits =~= cs@.take(end as int));
        assert(factor == amount_factor(raw@));
    }
    if end == 0 {
        return Err(String::from_str("expected a whole number of tokens, optionally followed by K, M or G"));
    }
    let mut v: u128 = 0;
    let mut i: usize = 0;
    while i < end
        invariant
            cs@ == raw@,
            n == cs@.len(),
            end <= n,
            digits == cs@.take(end as int),
            digits == amount_digits(raw@),
            factor == amount_factor(raw@),
            factor >= 1,
            i <= end,
            forall|j: int| 0 <= j < i ==> is_digit(#[trigger] digits[j]),
            v == digits_value(digits.take(i as int)),
            v <= u64::MAX,
        decreases end - i,
    {
        let c = cs[i];
        proof { assert(digits[i as int] == c); }
        if !('0' <= c && c <= '9') {
            proof { assert(!is_digit(digits[i as int])); }
            return Err(String::from_str("expected a whole number of tokens, optionally followed by K, M or G"));
        }
        let d: u128 = (c as u32 - '0' as u32) as u128;
        let next: u128 = v * 10 + d;
        proof {
            let t = digits.take(i + 1);
            assert(t.drop_last() =~= digits.take(i as int));
            assert(t.last() == c);
            assert(digits_value(t) == next);
        }
        if next > u64::MAX as u128 {
            proof {
                if forall|j: int| 0 <= j < digits.len() ==> is_digit(#[trigger] digits[j]) {
                    lemma_digits_prefix(digits, i + 1);
                    let x = digits_value(digits);
                    let f = amount_factor(raw@);
                    assert(x * f >= x) by (nonlinear_arith) requires f >= 1;
                }
            }
            return Err(String::from_str("expected a whole number of tokens, optionally followed by K, M or G"));
        }
        v = next;
        i = i + 1;
    }
    proof {
        assert(digits.take(end as int) =~= digits);
    }
    let total: u128 = v * factor;
    if total > u64::MAX as u128 {
        return Err(String::from_str("expected a whole number of tokens, optionally followed by K, M or G"));
    }
    Ok(total as u64)
}

/// The boot-time budget: unset is unlimited; a set value must parse as a
/// token amount (the empty string included, never a silent fallback to
/// unlimited) and yields a finite budget from zero consumed.
pub fn startup_token_budget(raw: Option<String>) -> (r: Result<TokenBudget, String>)
    ensures
        match raw {
            None => r == Ok::<TokenBudget, String>(TokenBudget { budget: 0, consumed: 0, unlimited: true }),
            Some(s) => match token_amount(s@) {
                Some(v) => r == Ok::<TokenBudget, String>(TokenBudget { budget: v as u64, consumed: 0, unlimited: false }),
                None => r matches Err(m) && m@ == "invalid value "@ + debug_quote(s@) + ": "@ + msg_bad_amount(),
            },
        },
{
    match raw {
        None => Ok(TokenBudget::unlimited()),
        Some(s) => match parse_token_amount(s.as_str()) {
            Ok(v) => Ok(TokenBudget::new(v, 0)),
            Err(e) => {
                let q = debug_quoted(s.as_str());
                Err(String::from_str("invalid value ").concat(q.as_str()).concat(": ").concat(e.as_str()))
            },
        },
    }
}

pub open spec fn msg_below_consumed(attempted: int, consumed: nat) -> Seq<char> {
    "new budget ("@ + signed_decimal(attempted) + ") would be at or below tokens already consumed ("@
        + decimal(consumed) + ")"@
}

/// The budget after one write, or the refusal's status and message:
/// operator only; exactly one shape; `set_unlimited` turns enforcement
/// off; `set_remaining` makes the total consumed + value (zero pauses
/// every agent; this is also the way out of unlimited); a delta must be
/// non-zero, needs a finite budget, and must leave the total above what
/// was consumed (a total beyond the counter's range saturates).
pub open spec fn update_spec(b: TokenBudget, is_operator: bool, req: TokenBudgetUpdateRequest) -> Result<TokenBudget, (u16, Seq<char>)> {
    if !is_operator {
        Err((403u16, "operator token required"@))
    } else if (req.set_remaining is Some && req.delta is Some) || (req.delta is Some && req.set_unlimited)
        || (req.set_remaining is Some && req.set_unlimited) {
        Err((400u16, "cannot specify more than one of 'set_remaining', 'delta', 'set_unlimited'"@))
    } else if req.set_remaining is None && req.delta is None && !req.set_unlimited {
        Err((400u16, "must specify one of 'set_remaining', 'delta', or 'set_unlimited'"@))
    } else if req.set_unlimited {
        Ok(TokenBudget { unlimited: true, ..b })
    } else if req.set_remaining is Some {
        let v = req.set_remaining->Some_0;
        Ok(TokenBudget {
            budget: if b.consumed + v > u64::MAX { u64::MAX } else { (b.consumed + v) as u64 },
            unlimited: false,
            ..b
        })
    } else {
        let d = req.delta->Some_0;
        if d == 0 {
            Err((400u16, "delta must be non-zero"@))
        } else if b.unlimited {
            Err((409u16, "budget is unlimited; set a finite budget first"@))
        } else if b.budget + d <= b.consumed {
            Err((409u16, msg_below_consumed(b.budget + d, b.consumed as nat)))
        } else {
            Ok(TokenBudget {
                budget: if b.budget + d > u64::MAX { u64::MAX } else { (b.budget + d) as u64 },
                ..b
            })
        }
    }
}

/// Apply one budget write (see [`update_spec`]) and report the result.
pub fn update_budget(b: &mut TokenBudget, identity: &Identity, req: TokenBudgetUpdateRequest) -> (r: Result<TokenBudgetResponse, ApiError>)
    ensures
        match update_spec(*old(b), identity is Operator, req) {
            Ok(nb) => *final(b) == nb && (r matches Ok(resp) && resp == nb.snapshot_spec()),
            Err(f) => *final(b) == *old(b) && (r matches Err(e) && e.status == f.0
                && e.message@ == f.1),
        },
{
    match require_operator(identity) {
        Ok(()) => {},
        Err(e) => return Err(e),
    }
    let many = (req.set_remaining.is_some() && req.delta.is_some()) || (req.delta.is_some() && req.set_unlimited)
        || (req.set_remaining.is_some() && req.set_unlimited);
    if many {
        return Err(ApiError::bad_request(String::from_str(
            "cannot specify more than one of 'set_remaining', 'delta', 'set_unlimited'",
        )));
    }
    if req.set_remaining.is_none() && req.delta.is_none() && !req.set_unlimited {
        return Err(ApiError::bad_request(String::from_str(
            "must specify one of 'set_remaining', 'delta', or 'set_unlimited'",
        )));
    }
    if req.set_unlimited {
        b.unlimited = true;
    } else if let Some(v) = req.set_remaining {
        let total: u128 = b.consumed as u128 + v as u128;
        b.budget = if total > u64::MAX as u128 { u64::MAX } else { total as u64 };
        b.unlimited = false;
    } else {
        let d: i64 = match req.delta {
            Some(d) => d,
            None => 0,
        };
        if d == 0 {
            return Err(ApiError::bad_request(String::from_str("delta must be non-zero")));
        }
        if b.unlimited {
            return Err(ApiError::conflict(String::from_str("budget is unlimited; set a finite budget first")));
        }
        let attempted: i128 = b.budget as i128 + d as i128;
        if attempted <= b.consumed as i128 {
            let a = display_i128(attempted);
            let c = display_u128(b.consumed as u128);
            return Err(ApiError::conflict(String::from_str("new budget (").concat(a.as_str()).concat(
                ") would be at or below tokens already consumed (",
            ).concat(c.as_str()).concat(")")));
        }
        b.budget = if attempted > u64::MAX as i128 { u64::MAX } else { attempted as u64 };
    }
    Ok(b.snapshot())
}

impl TokenBudget {
    /// The reported view (see [`TokenBudget::snapshot`]).
    pub open spec fn snapshot_spec(self) -> TokenBudgetResponse {
        TokenBudgetResponse {
            budget: if self.unlimited { 0 } else { self.budget },
            consumed: self.consumed,
            remaining: if self.unlimited || self.budget <= self.consumed { 0 } else { (self.budget - self.consumed) as u64 },
            unlimited: self.unlimited,
        }
    }
}

/// After a successful write the budget is either unlimited or strictly
/// above what was consumed, except a `set_remaining` of zero (the pause
/// mechanism) which leaves it exactly at the consumption.
pub proof fn law_write_leaves_headroom(b: TokenBudget, req: TokenBudgetUpdateRequest)
    requires
        update_spec(b, true, req) is Ok,
        req.set_remaining is None || req.set_remaining->Some_0 > 0,
        b.consumed < u64::MAX,
    ensures
        ({
            let nb = update_spec(b, true, req)->Ok_0;
            nb.unlimited || nb.budget > nb.consumed
        }),
{
}

/// Law: what each write shape does to a budget. A delta is a signed
/// adjustment of the total: it succeeds exactly when it is non-zero, the
/// budget is finite and the new total stays above what was consumed,
/// and then the total becomes the old total plus the delta (saturating
/// at the counter's range) whatever was consumed. A `set_remaining` of
/// `v` makes the total consumed + `v` (saturating). `set_unlimited`
/// only lifts enforcement. No write touches the consumption, and only
/// the operator writes.
pub proof fn law_budget_writes(b: TokenBudget, req: TokenBudgetUpdateRequest, is_operator: bool)
    ensures
        !is_operator ==> (update_spec(b, is_operator, req) matches Err(f) && f.0 == 403),
        update_spec(b, is_operator, req) is Ok ==> update_spec(b, is_operator, req)->Ok_0.consumed == b.consumed,
        is_operator && req.delta is Some && req.set_remaining is None && !req.set_unlimited ==> {
            let d = req.delta->Some_0;
            let r = update_spec(b, is_operator, req);
            &&& (r is Ok) <==> (d != 0 && !b.unlimited && b.budget + d > b.consumed)
            &&& r is Ok ==> !r->Ok_0.unlimited
                && r->Ok_0.budget as int == (if b.budget + d > u64::MAX { u64::MAX as int } else { b.budget + d })
        },
        is_operator && req.set_remaining is Some && req.delta is None && !req.set_unlimited ==> {
            let v = req.set_remaining->Some_0;
            let r = update_spec(b, is_operator, req);
            &&& r is Ok
            &&& !r->Ok_0.unlimited
            &&& r->Ok_0.budget as int == (if b.consumed + v > u64::MAX { u64::MAX as int } else { b.consumed + v })
        },
        is_operator && req.set_unlimited && req.delta is None && req.set_remaining is None ==> {
            let r = update_spec(b, is_operator, req);
            &&& r is Ok
            &&& r->Ok_0.unlimited
            &&& r->Ok_0.budget == b.budget
        },
{
}

} // verus!
