//! Decimal rendering of integers, for log targets and generated post
//! bodies.

use vstd::prelude::*;

verus! {

/// The character of one decimal digit.
pub open spec fn spec_digit(d: nat) -> char {
    if d == 0 {
        '0'
    } else if d == 1 {
        '1'
    } else if d == 2 {
        '2'
    } else if d == 3 {
        '3'
    } else if d == 4 {
        '4'
    } else if d == 5 {
        '5'
    } else if d == 6 {
        '6'
    } else if d == 7 {
        '7'
    } else if d == 8 {
        '8'
    } else {
        '9'
    }
}

/// The decimal digits of a non-negative integer, most significant first.
pub open spec fn spec_dec_digits(n: nat) -> Seq<char>
    decreases n,
{
    if n < 10 {
        seq![spec_digit(n)]
    } else {
        spec_dec_digits((n / 10) as nat).push(spec_digit((n % 10) as nat))
    }
}

/// The decimal rendering of a signed 32-bit value.
pub open spec fn spec_dec_i32(v: int) -> Seq<char> {
    if v < 0 {
        seq!['-'] + spec_dec_digits((-v) as nat)
    } else {
        spec_dec_digits(v as nat)
    }
}

/// Relies on core's `Display` impl for `i32`: the rendering is the
/// decimal digits of the value, with a leading minus sign when negative.
#[verifier::external_body]
pub fn i32_to_string(v: i32) -> (r: String)
    ensures
        r@ == spec_dec_i32(v as int),
{
    format!("{}", v)
}

} // verus!
