//! Fingerprints and tokens: the salted one-way hash behind every
//! pseudonymous actor identifier, and the per-process hasher that issues
//! temporary tokens.

use vstd::prelude::*;

use crate::decimal::i32_to_string;
use crate::rng::random_string;
use vstd::utf8::is_ascii_chars;

verus! {

/// The lower-case hex rendering of the SHA-256 digest of two strings fed
/// in order; a function of its arguments alone.
pub uninterp spec fn sha256_hex_lower_of(a: Seq<char>, b: Seq<char>) -> Seq<char>;

/// The upper-case hex rendering of the same digest.
pub uninterp spec fn sha256_hex_upper_of(a: Seq<char>, b: Seq<char>) -> Seq<char>;

/// Relies on sha2's `Sha256` and core's `LowerHex` formatting: the digest
/// depends only on the bytes fed to it, and its rendering is the 64
/// ASCII hex characters of the 32 digest bytes.
#[verifier::external_body]
fn sha256_hex_lower(a: &str, b: &str) -> (r: String)
    ensures
        r@ == sha256_hex_lower_of(a@, b@),
        r@.len() == 64,
        is_ascii_chars(r@),
{
    let mut h: sha2::Sha256 = sha2::Digest::new();
    sha2::Digest::update(&mut h, a);
    sha2::Digest::update(&mut h, b);
    format!("{:x}", sha2::Digest::finalize(h))
}

/// Relies on sha2's `Sha256` and core's `UpperHex` formatting, as the
/// lower-case twin above.
#[verifier::external_body]
fn sha256_hex_upper(a: &str, b: &str) -> (r: String)
    ensures
        r@ == sha256_hex_upper_of(a@, b@),
        r@.len() == 64,
        is_ascii_chars(r@),
{
    let mut h: sha2::Sha256 = sha2::Digest::new();
    sha2::Digest::update(&mut h, a);
    sha2::Digest::update(&mut h, b);
    format!("{:X}", sha2::Digest::finalize(h))
}

/// A client may present a token as `sha256:<secret>`; such a token is
/// replaced by the first sixteen hex characters of the salted digest of
/// the secret, so the raw secret never reaches storage. Any other shape
/// passes through unchanged.
pub open spec fn spec_normalize_token(token: Seq<char>) -> Seq<char> {
    if token.len() >= 7 && token.subrange(0, 7) == "sha256:"@ && !token.skip(7).contains(':') {
        sha256_hex_lower_of(token.skip(7), "hole"@).subrange(0, 16)
    } else {
        token
    }
}

pub fn normalize_token(token: &String) -> (r: String)
    ensures
        r@ == spec_normalize_token(token@),
{
    let n: usize = token.as_str().unicode_len();
    if n < 7 {
        return token.clone();
    }
    let head: &str = token.as_str().substring_char(0, 7);
    let prefix: String = String::from_str("sha256:");
    if !(head.to_owned() == prefix) {
        return token.clone();
    }
    let rest: &str = token.as_str().substring_char(7, n);
    let m: usize = rest.unicode_len();
    let mut i: usize = 0;
    while i < m
        invariant
            i <= m,
            m == rest@.len(),
            n == token@.len(),
            n >= 7,
            rest@ == token@.subrange(7, n as int),
            forall|j: int| 0 <= j < i ==> rest@[j] != ':',
        decreases m - i,
    {
        if rest.get_char(i) == ':' {
            proof {
                assert(token@.skip(7) =~= rest@);
                assert(token@.skip(7).contains(':'));
            }
            return token.clone();
        }
        i += 1;
    }
    proof {
        assert(token@.skip(7) =~= rest@);
        if token@.skip(7).contains(':') {
            let j = choose|j: int| 0 <= j < rest@.len() && rest@[j] == ':';
            assert(rest@[j] != ':');
        }
        assert(token@.subrange(0, 7) == head@);
    }
    let hex: String = sha256_hex_lower(rest, "hole");
    let short: &str = hex.as_str().substring_ascii(0, 16);
    proof {
        assert(short@ == sha256_hex_lower_of(token@.skip(7), "hole"@).subrange(0, 16));
    }
    short.to_owned()
}

/// The per-process hasher: a random salt drawn at start, mixed into
/// every fingerprint.
pub struct RandomHasher {
    pub salt: String,
    pub start_time: i64,
}

impl RandomHasher {
    /// A hasher with a fresh sixteen-character random salt.
    pub fn get_random_one(now: i64) -> (r: RandomHasher)
        ensures
            r.salt@.len() == 16,
            r.start_time == now,
    {
        RandomHasher { salt: random_string(16), start_time: now }
    }

    /// The fingerprint of an identity: sixteen characters cut from the
    /// upper-case hex digest of the identity salted with this process's
    /// salt.
    pub fn hash_with_salt(&self, text: &String) -> (r: String)
        ensures
            r@ == sha256_hex_upper_of(text@, self.salt@).subrange(5, 21),
            r@.len() == 16,
    {
        let hex: String = sha256_hex_upper(text.as_str(), self.salt.as_str());
        let short: &str = hex.as_str().substring_ascii(5, 21);
        short.to_owned()
    }

    /// The temporary login token: a fingerprint of the current
    /// quarter-hour and this process's start instant, so it rotates
    /// every fifteen minutes and differs across restarts.
    pub fn get_tmp_token(&self, now: i64) -> (r: String)
        requires
            0 <= now,
            0 <= self.start_time < 0x8000_0000,
        ensures
            r@.len() == 16,
    {
        let quarter: i64 = now / 60 / 15;
        let mut text: String = i32_to_string((quarter % 0x8000_0000i64) as i32);
        text.append("_");
        text.append(i32_to_string(self.start_time as i32).as_str());
        self.hash_with_salt(&text)
    }
}

} // verus!
