//! The PKCE code material: a random verifier, and its challenge made of a
//! SHA-256 digest in URL-safe base64. Hashing, encoding and the randomness
//! come from outside; what is built on them is verified.

use vstd::prelude::*;

use base64::Engine;
use rand::RngExt;
use sha2::Digest;

verus! {

/// Length of a generated code verifier, in characters.
pub const CODE_VERIFIER_LEN: usize = 128;

pub open spec fn is_ascii_alnum(c: char) -> bool {
    (48 <= c as u32 <= 57) || (65 <= c as u32 <= 90) || (97 <= c as u32 <= 122)
}

/// Relies on rand's Alphanumeric distribution: every sampled byte is an
/// ASCII letter or digit. Nothing else can be promised of a random value.
#[verifier::external_body]
pub fn generate_code_verifier() -> (r: String)
    ensures
        r@.len() == CODE_VERIFIER_LEN,
        forall|i: int| 0 <= i < r@.len() ==> is_ascii_alnum(r@[i]),
{
    rand::rng().sample_iter(rand::distr::Alphanumeric).take(CODE_VERIFIER_LEN).map(
        char::from,
    ).collect()
}

/// The SHA-256 digest of a string's UTF-8 bytes; a function of the
/// characters alone.
pub uninterp spec fn sha256_utf8(s: Seq<char>) -> Seq<u8>;

/// Relies on sha2's Sha256: a 32-byte digest determined by the input bytes
/// alone.
#[verifier::external_body]
fn sha256_digest(s: &str) -> (r: Vec<u8>)
    ensures
        r@ == sha256_utf8(s@),
        r@.len() == 32,
{
    sha2::Sha256::digest(s.as_bytes()).to_vec()
}

/// A character of the URL-safe base64 alphabet.
pub open spec fn is_b64url_char(c: char) -> bool {
    is_ascii_alnum(c) || c as u32 == 45 || c as u32 == 95
}

/// The URL-safe, unpadded base64 encoding of a byte sequence; a function of
/// the bytes alone.
pub uninterp spec fn base64url_of(b: Seq<u8>) -> Seq<char>;

/// Relies on base64's URL_SAFE_NO_PAD engine: four characters per three
/// bytes, rounded up and unpadded, over the URL-safe alphabet, determined
/// by the input bytes alone.
#[verifier::external_body]
fn base64url_nopad(bytes: &Vec<u8>) -> (r: String)
    ensures
        r@ == base64url_of(bytes@),
        r@.len() == (bytes@.len() * 4 + 2) / 3,
        forall|i: int| 0 <= i < r@.len() ==> is_b64url_char(r@[i]),
{
    base64::engine::general_purpose::URL_SAFE_NO_PAD.encode(bytes)
}

/// The challenge belonging to a verifier: its SHA-256 digest, URL-safe
/// base64 without padding — 43 characters of the URL-safe alphabet.
pub fn generate_code_challenge(verifier: &str) -> (r: String)
    ensures
        r@ == base64url_of(sha256_utf8(verifier@)),
        r@.len() == 43,
        forall|i: int| 0 <= i < r@.len() ==> is_b64url_char(r@[i]),
{
    let hash = sha256_digest(verifier);
    base64url_nopad(&hash)
}

} // verus!
