//! Rendering of values inside human-readable messages.
use vstd::prelude::*;

verus! {

/// What `{:?}` renders for a string: the string in double quotes, with
/// quotes, backslashes and control characters escaped.
pub uninterp spec fn debug_quote(s: Seq<char>) -> Seq<char>;

/// `format!("{s:?}")`: std's `Debug` rendering of a string slice. The
/// contract only names the result (a function of `s` alone); the
/// escaping rules are std's.
#[verifier::external_body]
pub(crate) fn debug_quoted(s: &str) -> (r: String)
    ensures r@ == debug_quote(s@),
{
    format!("{s:?}")
}

/// The decimal digits of `n`, most significant first.
pub open spec fn decimal(n: nat) -> Seq<char>
    decreases n,
{
    if n < 10 {
        seq![digit_char(n)]
    } else {
        decimal(n / 10).push(digit_char(n % 10))
    }
}

pub open spec fn digit_char(d: nat) -> char {
    if d == 0 { '0' } else if d == 1 { '1' } else if d == 2 { '2' } else if d == 3 { '3' }
    else if d == 4 { '4' } else if d == 5 { '5' } else if d == 6 { '6' } else if d == 7 { '7' }
    else if d == 8 { '8' } else { '9' }
}

/// The one-character string of digit `d`.
fn digit_str(d: u128) -> (r: String)
    requires d < 10,
    ensures r@ == seq![digit_char(d as nat)],
{
    proof {
        reveal_strlit("0"); reveal_strlit("1"); reveal_strlit("2"); reveal_strlit("3"); reveal_strlit("4");
        reveal_strlit("5"); reveal_strlit("6"); reveal_strlit("7"); reveal_strlit("8"); reveal_strlit("9");
    }
    let s = if d == 0 { "0" } else if d == 1 { "1" } else if d == 2 { "2" } else if d == 3 { "3" }
        else if d == 4 { "4" } else if d == 5 { "5" } else if d == 6 { "6" } else if d == 7 { "7" }
        else if d == 8 { "8" } else { "9" };
    let r = String::from_str(s);
    proof { assert(r@ =~= seq![digit_char(d as nat)]); }
    r
}

/// The plain decimal digits of `n`, as std's `Display` renders an
/// unsigned integer (no sign, no padding).
pub(crate) fn display_u128(n: u128) -> (r: String)
    ensures r@ == decimal(n as nat),
    decreases n,
{
    if n < 10 {
        digit_str(n)
    } else {
        let head = display_u128(n / 10);
        let last = digit_str(n % 10);
        head.concat(last.as_str())
    }
}

/// The plain decimal digits of a count.
pub(crate) fn display_usize(n: usize) -> (r: String)
    ensures r@ == decimal(n as nat),
{
    display_u128(n as u128)
}

/// The decimal rendering of a signed count: a minus sign before the
/// digits of a negative one.
pub open spec fn signed_decimal(n: int) -> Seq<char> {
    if n < 0 { seq!['-'] + decimal((-n) as nat) } else { decimal(n as nat) }
}

/// The decimal rendering of a signed count, as std's `Display` renders
/// it: a minus sign before the digits of a negative one.
pub(crate) fn display_i128(n: i128) -> (r: String)
    ensures r@ == signed_decimal(n as int),
{
    if n < 0 {
        let m: u128 = ((-(n + 1)) as u128) + 1;
        assert(m == -(n as int));
        let digits = display_u128(m);
        let r = String::from_str("-").concat(digits.as_str());
        proof {
            reveal_strlit("-");
            assert(r@ =~= seq!['-'] + decimal((-(n as int)) as nat));
        }
        r
    } else {
        display_u128(n as u128)
    }
}

} // verus!
