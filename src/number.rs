//! Decimal text of unsigned integers.
use vstd::prelude::*;

verus! {

/// The digit character of `d`, for `d` below ten.
pub open spec fn digit_char(d: nat) -> char {
    seq!['0', '1', '2', '3', '4', '5', '6', '7', '8', '9'][d as int]
}

/// The decimal digits of `n`, without sign or leading zeros.
pub open spec fn decimal(n: nat) -> Seq<char>
    decreases n,
{
    if n < 10 {
        seq![digit_char(n)]
    } else {
        decimal(n / 10).push(digit_char(n % 10))
    }
}

#[verifier::external_type_specification]
#[verifier::external_body]
pub struct ExJsonError(serde_json::Error);

/// Relies on `serde_json::to_string`: an unsigned integer is written as its
/// decimal digits, and writing into memory does not fail.
#[verifier::external_body]
pub(crate) fn json_number(n: usize) -> (r: Result<String, serde_json::Error>)
    ensures
        r is Ok,
        r->Ok_0@ == decimal(n as nat),
{
    serde_json::to_string(&n)
}

/// The decimal digits of `i`, after a minus sign where it is negative.
pub open spec fn signed_decimal(i: int) -> Seq<char> {
    if i < 0 {
        seq!['-'] + decimal((-i) as nat)
    } else {
        decimal(i as nat)
    }
}

/// Relies on `ToString` through `Display` for `u64`: the decimal digits.
#[verifier::external_body]
pub(crate) fn display_number(n: u64) -> (r: String)
    ensures
        r@ == decimal(n as nat),
{
    n.to_string()
}

/// Relies on `ToString` through `Display` for `i64`: a minus sign where the
/// number is negative, then the decimal digits of its magnitude.
#[verifier::external_body]
pub(crate) fn display_signed(n: i64) -> (r: String)
    ensures
        r@ == signed_decimal(n as int),
{
    n.to_string()
}

} // verus!
