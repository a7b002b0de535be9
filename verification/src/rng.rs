//! Source of randomness for the shuffled ranked view and for generated
//! secrets.

use vstd::prelude::*;

verus! {

/// Whether a character is one rand's `Alphanumeric` distribution can
/// yield: an ASCII digit or letter.
pub open spec fn spec_is_alphanumeric(c: char) -> bool {
    ||| 48 <= c as int <= 57
    ||| 65 <= c as int <= 90
    ||| 97 <= c as int <= 122
}

/// Relies on `rand::thread_rng` and `Rng::gen_range`: the draw lies in the
/// half-open range it is given. Nothing more is promised of a random
/// value; two calls may differ.
#[verifier::external_body]
pub fn random_sort_key() -> (r: i64)
    ensures
        0 <= r < i64::MAX,
{
    rand::Rng::gen_range(&mut rand::thread_rng(), 0..i64::MAX)
}

/// Relies on `rand`'s `Alphanumeric` distribution: each sample is one
/// of the 62 ASCII digits and letters, so taking `len` of them yields a
/// string of exactly `len` alphanumeric characters. Two calls may
/// differ.
#[verifier::external_body]
pub fn random_string(len: usize) -> (r: String)
    ensures
        r@.len() == len as int,
        vstd::utf8::is_ascii_chars(r@),
        forall|i: int| 0 <= i < r@.len() ==> spec_is_alphanumeric(#[trigger] r@[i]),
{
    rand::Rng::sample_iter(rand::thread_rng(), &rand::distributions::Alphanumeric)
        .take(len)
        .map(char::from)
        .collect()
}

} // verus!
