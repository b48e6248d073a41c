//! Digests, encodings and randomness from outside, as functions on plain
//! values.
use vstd::prelude::*;
use argon2::password_hash::PasswordHasher;
use argon2::password_hash::PasswordVerifier;
use base64::Engine;
use rand::Rng;
use rand::RngCore;
use sha2::Digest;
use subtle::ConstantTimeEq;

verus! {

/// The SHA-256 digest of a row of bytes.
pub uninterp spec fn sha256_of(data: Seq<u8>) -> Seq<u8>;

/// `sha2::Sha256::digest`: the SHA-256 digest of the data, 32 bytes long.
#[verifier::external_body]
pub(crate) fn sha256(data: &[u8]) -> (r: Vec<u8>)
    ensures
        r@ == sha256_of(data@),
        r@.len() == 32,
{
    sha2::Sha256::digest(data).to_vec()
}

/// Two lower-case hexadecimal digits for every byte.
pub open spec fn hex_of(data: Seq<u8>) -> Seq<char>
    decreases data.len(),
{
    if data.len() == 0 {
        seq![]
    } else {
        hex_of(data.drop_last()) + seq![
            crate::text::hex_char(data.last() as nat / 16),
            crate::text::hex_char(data.last() as nat % 16),
        ]
    }
}

/// `hex::encode`: the data in lower-case hexadecimal, two digits a byte.
#[verifier::external_body]
pub(crate) fn hex_encode(data: &[u8]) -> (r: String)
    ensures
        r@ == hex_of(data@),
{
    hex::encode(data)
}

/// Two digits a byte.
pub proof fn lemma_hex_length(data: Seq<u8>)
    ensures
        hex_of(data).len() == 2 * data.len(),
    decreases data.len(),
{
    if data.len() > 0 {
        lemma_hex_length(data.drop_last());
    }
}

/// The bytes that a text denotes in padded standard base64, if it does.
pub uninterp spec fn base64_standard(text: Seq<char>) -> Option<Seq<u8>>;

/// `base64::engine::general_purpose::STANDARD` decoding: the bytes that the
/// text denotes, or nothing if it is no padded standard base64.
#[verifier::external_body]
pub(crate) fn base64_decode(text: &str) -> (r: Option<Vec<u8>>)
    ensures
        match base64_standard(text@) {
            Some(b) => r is Some && r->0@ == b,
            None => r is None,
        },
{
    base64::engine::general_purpose::STANDARD.decode(text).ok()
}

/// `subtle::ConstantTimeEq` on byte slices: whether they are equal, in a time
/// that depends on their lengths alone.
#[verifier::external_body]
pub(crate) fn constant_time_eq(a: &[u8], b: &[u8]) -> (r: bool)
    ensures
        r == (a@ == b@),
{
    bool::from(a.ct_eq(b))
}

/// `rand::rng` and its `fill_bytes`: as many random bytes as asked for. Which
/// ones is left open.
#[verifier::external_body]
pub(crate) fn random_bytes(count: usize) -> (r: Vec<u8>)
    requires
        count <= 1024,
    ensures
        r@.len() == count,
{
    let mut buffer = vec![0u8; count];
    rand::rng().fill_bytes(&mut buffer);
    buffer
}

/// `rand::Rng::random_range` over an inclusive range: a number in it. Which one
/// is left open.
#[verifier::external_body]
pub(crate) fn random_between(low: i64, high: i64) -> (r: i64)
    requires
        low <= high,
    ensures
        low <= r <= high,
{
    rand::rng().random_range(low..=high)
}

/// The bytes that a text denotes in base64url without padding, if it does.
pub uninterp spec fn base64_url_unpadded(text: Seq<char>) -> Option<Seq<u8>>;

/// `base64::engine::general_purpose::URL_SAFE_NO_PAD` decoding: the bytes that
/// the text denotes, or nothing if it is no unpadded base64url.
#[verifier::external_body]
pub(crate) fn base64_url_unpadded_decode(text: &str) -> (r: Option<Vec<u8>>)
    ensures
        match base64_url_unpadded(text@) {
            Some(b) => r is Some && r->0@ == b,
            None => r is None,
        },
{
    base64::engine::general_purpose::URL_SAFE_NO_PAD.decode(text).ok()
}

/// The bytes that a text denotes in padded base64url, if it does.
pub uninterp spec fn base64_url_padded(text: Seq<char>) -> Option<Seq<u8>>;

/// `base64::engine::general_purpose::URL_SAFE` decoding: the bytes that the
/// text denotes, or nothing if it is no padded base64url.
#[verifier::external_body]
pub(crate) fn base64_url_padded_decode(text: &str) -> (r: Option<Vec<u8>>)
    ensures
        match base64_url_padded(text@) {
            Some(b) => r is Some && r->0@ == b,
            None => r is None,
        },
{
    base64::engine::general_purpose::URL_SAFE.decode(text).ok()
}

/// Whether a candidate is the password of an encoded Argon2 hash.
pub uninterp spec fn argon2_accepts(encoded: Seq<char>, candidate: Seq<u8>) -> bool;

/// The encoded Argon2 hash of a password with a salt.
pub uninterp spec fn argon2_hash_of(password: Seq<u8>, salt: Seq<u8>) -> Option<Seq<char>>;

/// `argon2::Argon2::hash_password` with the default parameters and a salt of
/// 16 bytes: the encoded hash, which the same password is accepted for. Only
/// a password beyond 4 GiB has none.
#[verifier::external_body]
pub(crate) fn argon2_hash(password: &[u8], salt: &[u8]) -> (r: Option<String>)
    requires
        salt@.len() == 16,
    ensures
        match argon2_hash_of(password@, salt@) {
            Some(h) => r is Some && r->0@ == h,
            None => r is None,
        },
        password@.len() <= 0xffff_ffff ==> r is Some,
        r is Some ==> argon2_accepts(r->0@, password@),
{
    let salt = argon2::password_hash::SaltString::encode_b64(salt).ok()?;
    let hash = argon2::Argon2::default().hash_password(password, &salt).ok()?;
    Some(hash.to_string())
}

/// `argon2::Argon2::verify_password` on a parsed hash: whether the candidate
/// is accepted. A text that is no encoded hash accepts nothing.
#[verifier::external_body]
pub(crate) fn argon2_verify(encoded: &str, candidate: &[u8]) -> (r: bool)
    ensures
        r == argon2_accepts(encoded@, candidate@),
{
    match argon2::password_hash::PasswordHash::new(encoded) {
        Ok(hash) => argon2::Argon2::default().verify_password(candidate, &hash).is_ok(),
        Err(_) => false,
    }
}

/// Hexadecimal digits read back as the bytes they stand for.
pub proof fn hexadecimal_digits_read_back(data: Seq<u8>, i: int)
    requires
        0 <= i < data.len(),
    ensures
        hex_of(data).len() == 2 * data.len(),
        crate::text::hex_value(hex_of(data)[2 * i] as u8) == Some((data[i] / 16) as u8),
        crate::text::hex_value(hex_of(data)[2 * i + 1] as u8) == Some((data[i] % 16) as u8),
    decreases data.len(),
{
    let t = data.drop_last();
    if i < t.len() {
        assert(t[i] == data[i]);
        hexadecimal_digits_read_back(t, i);
    } else if t.len() > 0 {
        hexadecimal_digits_read_back(t, 0);
    } else {
        assert(hex_of(t).len() == 0);
    }
}

} // verus!
