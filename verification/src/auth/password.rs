//! The quick unlock.
//!
//! The pattern a phone uses: a strong factor to enrol the device once, a fast
//! one to unlock it thereafter. The authenticator proves *this browser* is the
//! operator's, durably. The password unlocks a session, quickly, with no timer.
//!
//! Argon2id, because a password hash that leaks should be expensive to attack
//! on a GPU.

use crate::auth::crypto;
use crate::text;
use vstd::prelude::*;

verus! {

/// Minimum length. Deliberately modest: this is a second factor behind a
/// tailnet boundary and a device-trust cookie, not a lone perimeter, and an
/// unreasonable rule here is one an operator works around.
pub const MIN_LENGTH: usize = 8;

#[derive(Debug, Clone, Copy, PartialEq, Eq, Structural)]
pub enum PasswordError {
    TooShort,
    Hashing,
}

impl PasswordError {
    /// What to tell the operator.
    pub fn message(&self) -> (r: &'static str)
        ensures
            r@ == (match *self {
                PasswordError::TooShort => "password must be at least 8 characters"@,
                PasswordError::Hashing => "could not hash password"@,
            }),
    {
        match self {
            PasswordError::TooShort => "password must be at least 8 characters",
            PasswordError::Hashing => "could not hash password",
        }
    }
}

/// A password matches a stored hash.
pub open spec fn matches_hash(password: Seq<char>, stored: Seq<char>) -> bool {
    crypto::argon2_verified(vstd::utf8::encode_utf8(password), stored)
}

/// The length rule, and what a hash that was or was not made amounts to.
pub fn hashed(password: &str, made: Option<String>) -> (r: Result<String, PasswordError>)
    ensures
        match r {
            Ok(h) => password@.len() >= 8 && made == Some(h),
            Err(PasswordError::TooShort) => password@.len() < 8,
            Err(PasswordError::Hashing) => password@.len() >= 8 && made is None,
        },
{
    if text::chars_of(password).len() < MIN_LENGTH {
        return Err(PasswordError::TooShort);
    }
    match made {
        Some(h) => Ok(h),
        None => Err(PasswordError::Hashing),
    }
}

/// Produce a PHC-format hash, salt included.
///
/// Length is counted in characters. A password long enough fails only where the
/// hash cannot be computed.
pub fn hash(password: &str) -> (r: Result<String, PasswordError>)
    ensures
        r is Err && r->Err_0 == PasswordError::TooShort <==> password@.len() < 8,
        r matches Ok(h) ==> matches_hash(password@, h@) && text::starts(h@, "$argon2id$"@),
{
    if text::chars_of(password).len() < MIN_LENGTH {
        return Err(PasswordError::TooShort);
    }
    let made = crypto::argon2_hash(password.as_bytes());
    hashed(password, made)
}

/// Check a password against a stored hash.
///
/// Argon2's own verification is constant-time with respect to the hash, so a
/// wrong password costs the same as a right one. A corrupt hash matches nothing.
pub fn verify(password: &str, stored: &str) -> (r: bool)
    ensures
        r == matches_hash(password@, stored@),
{
    crypto::argon2_verify(password.as_bytes(), stored)
}

} // verus!
