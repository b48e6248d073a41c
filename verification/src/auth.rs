//! Administrator passwords and the tokens of sessions.
use vstd::prelude::*;
use crate::crypto;
use crate::text;

verus! {

#[derive(Debug, Clone, Default)]
pub struct UserRecord {
    pub username: String,
    pub password_hash: String,
    pub administrator: bool,
    /// Seconds since the Unix epoch.
    pub created_at: Option<i64>,
    pub disabled: bool,
}

#[derive(Debug, Clone, Default)]
pub struct SessionRecord {
    pub token_hash: String,
    pub username: String,
    pub csrf_token: String,
    /// Seconds since the Unix epoch.
    pub created_at: Option<i64>,
    /// Seconds since the Unix epoch.
    pub expires_at: Option<i64>,
}

/// Why a password is not hashed.
#[derive(Debug, Clone, Copy, PartialEq, Eq, Structural)]
pub enum PasswordError {
    /// It has fewer than twelve bytes.
    TooShort,
    /// Argon2 does not take it.
    NotHashed,
}

/// The shortest accepted password, in bytes.
pub const MIN_PASSWORD_BYTES: usize = 12;

/// Whether a text is a token: 32 bytes in hexadecimal.
pub open spec fn is_token(s: Seq<char>) -> bool {
    exists|b: Seq<u8>| b.len() == 32 && s == #[trigger] crypto::hex_of(b)
}

/// A fresh token: 32 random bytes in hexadecimal.
pub fn random_token() -> (r: String)
    ensures
        is_token(r@),
        r@.len() == 64,
{
    let bytes = crypto::random_bytes(32);
    proof {
        crypto::lemma_hex_length(bytes@);
    }
    crypto::hex_encode(bytes.as_slice())
}

/// What is stored of a token.
pub open spec fn hash_of_token(token: Seq<char>) -> Seq<char> {
    crypto::hex_of(crypto::sha256_of(vstd::utf8::encode_utf8(token)))
}

pub fn token_hash(token: &str) -> (r: String)
    ensures
        r@ == hash_of_token(token@),
        r@.len() == 64,
{
    let digest = crypto::sha256(token.as_bytes());
    proof {
        crypto::lemma_hex_length(digest@);
    }
    crypto::hex_encode(digest.as_slice())
}

/// Hashes a password with a given salt.
pub fn hash_password_with_salt(password: &str, salt: &[u8]) -> (r: Result<String, PasswordError>)
    requires
        salt@.len() == 16,
    ensures
        vstd::utf8::encode_utf8(password@).len() < MIN_PASSWORD_BYTES ==> r == Err::<String, PasswordError>(
            PasswordError::TooShort,
        ),
        vstd::utf8::encode_utf8(password@).len() >= MIN_PASSWORD_BYTES ==> match crypto::argon2_hash_of(
            vstd::utf8::encode_utf8(password@),
            salt@,
        ) {
            Some(h) => r is Ok && r->Ok_0@ == h,
            None => r == Err::<String, PasswordError>(PasswordError::NotHashed),
        },
        MIN_PASSWORD_BYTES <= vstd::utf8::encode_utf8(password@).len() <= 0xffff_ffff ==> r is Ok,
        r is Ok ==> crypto::argon2_accepts(r->Ok_0@, vstd::utf8::encode_utf8(password@)),
{
    let bytes = password.as_bytes();
    if bytes.len() < MIN_PASSWORD_BYTES {
        return Err(PasswordError::TooShort);
    }
    match crypto::argon2_hash(bytes, salt) {
        Some(h) => Ok(h),
        None => Err(PasswordError::NotHashed),
    }
}

/// Hashes a password of at least twelve bytes with a fresh salt.
pub fn hash_password(password: &str) -> (r: Result<String, PasswordError>)
    ensures
        r == Err::<String, PasswordError>(PasswordError::TooShort) <==> vstd::utf8::encode_utf8(password@).len()
            < MIN_PASSWORD_BYTES,
        MIN_PASSWORD_BYTES <= vstd::utf8::encode_utf8(password@).len() <= 0xffff_ffff ==> r is Ok,
        r is Ok ==> crypto::argon2_accepts(r->Ok_0@, vstd::utf8::encode_utf8(password@)),
        r is Ok ==> exists|salt: Seq<u8>| #[trigger]
            crypto::argon2_hash_of(vstd::utf8::encode_utf8(password@), salt) == Some(r->Ok_0@),
{
    let salt = crypto::random_bytes(16);
    hash_password_with_salt(password, salt.as_slice())
}

/// Whether a candidate is the password of an encoded hash.
pub fn verify_password(encoded: &str, candidate: &str) -> (r: bool)
    ensures
        r == crypto::argon2_accepts(encoded@, vstd::utf8::encode_utf8(candidate@)),
{
    crypto::argon2_verify(encoded, candidate.as_bytes())
}

/// The administrator that is put in place of a lost one. `password` is what a
/// file holds; the space around it does not count.
pub fn recover_admin(username: String, password: &str, now: i64) -> (r: Result<UserRecord, PasswordError>)
    ensures
        ({
            let given = vstd::utf8::encode_utf8(text::trimmed(password@));
            &&& (r is Err && r->Err_0 == PasswordError::TooShort) <==> given.len() < MIN_PASSWORD_BYTES
            &&& MIN_PASSWORD_BYTES <= given.len() <= 0xffff_ffff ==> r is Ok
            &&& r matches Ok(u) ==> u.username == username && u.administrator && !u.disabled && u.created_at == Some(now)
                && crypto::argon2_accepts(u.password_hash@, given)
        }),
{
    let all = text::chars_of(password);
    let trimmed = text::string_of(text::trim(all.as_slice()));
    match hash_password(trimmed.as_str()) {
        Ok(password_hash) => Ok(
            UserRecord { username, password_hash, administrator: true, created_at: Some(now), disabled: false },
        ),
        Err(e) => Err(e),
    }
}

/// A password of twelve bytes or more can be set, and it is accepted afterwards;
/// a shorter one cannot.
pub proof fn a_password_that_was_set_is_accepted(
    password: &str,
    hashed: Result<String, PasswordError>,
    encoded: &str,
    r: bool,
)
    requires
        call_ensures(hash_password, (password,), hashed),
        hashed is Ok ==> encoded@ == (hashed->Ok_0)@,
        call_ensures(verify_password, (encoded, password), r),
    ensures
        12 <= vstd::utf8::encode_utf8(password@).len() <= 0xffff_ffff ==> hashed is Ok,
        vstd::utf8::encode_utf8(password@).len() < 12 ==> hashed is Err,
        hashed is Ok ==> r,
{
}

} // verus!
