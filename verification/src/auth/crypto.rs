//! The cryptographic primitives that authentication is built from.

use crate::text;
use argon2::{Argon2, PasswordHasher, PasswordVerifier};
use hmac::{Hmac, Mac};
use sha1::Sha1;
use sha2::Sha256;
use subtle::ConstantTimeEq;
use vstd::prelude::*;

verus! {

/// The HMAC-SHA1 code of a message under a key.
pub uninterp spec fn hmac_sha1(key: Seq<u8>, message: Seq<u8>) -> Seq<u8>;

/// The HMAC-SHA256 code of a message under a key.
pub uninterp spec fn hmac_sha256(key: Seq<u8>, message: Seq<u8>) -> Seq<u8>;

/// Whether a password matches a stored Argon2 hash in PHC format. A text that
/// is no such hash matches nothing.
pub uninterp spec fn argon2_verified(password: Seq<u8>, stored: Seq<char>) -> bool;

/// Calls `hmac::Hmac<sha1::Sha1>`: keyed with `key`, fed `message`, finished.
/// The code has twenty bytes and depends on the two arguments alone. HMAC takes
/// a key of any length, so making the instance does not fail.
#[verifier::external_body]
pub(crate) fn hmac_sha1_of(key: &[u8], message: &[u8]) -> (r: Vec<u8>)
    ensures
        r@ == hmac_sha1(key@, message@),
        r@.len() == 20,
{
    let mut mac = Hmac::<Sha1>::new_from_slice(key).expect("HMAC accepts any key length");
    mac.update(message);
    mac.finalize().into_bytes().to_vec()
}

/// Calls `hmac::Hmac<sha2::Sha256>`: keyed with `key`, fed `message`, finished.
/// The code has thirty-two bytes and depends on the two arguments alone. HMAC
/// takes a key of any length, so making the instance does not fail.
#[verifier::external_body]
pub(crate) fn hmac_sha256_of(key: &[u8], message: &[u8]) -> (r: Vec<u8>)
    ensures
        r@ == hmac_sha256(key@, message@),
        r@.len() == 32,
{
    let mut mac = Hmac::<Sha256>::new_from_slice(key).expect("HMAC accepts any key length");
    mac.update(message);
    mac.finalize().into_bytes().to_vec()
}

/// Calls `subtle::ConstantTimeEq::ct_eq` on byte slices: true exactly where the
/// slices are equal. That the time taken does not depend on the contents, which
/// is why it is called, is not part of the contract.
#[verifier::external_body]
fn ct_eq(a: &[u8], b: &[u8]) -> (r: bool)
    ensures
        r == (a@ == b@),
{
    a.ct_eq(b).into()
}

/// Whether two texts are equal, in time independent of what they hold.
pub fn same_secret(a: &str, b: &str) -> (r: bool)
    ensures
        r == (a@ == b@),
{
    proof {
        vstd::utf8::encode_utf8_decode_utf8(a@);
        vstd::utf8::encode_utf8_decode_utf8(b@);
    }
    ct_eq(a.as_bytes(), b.as_bytes())
}

/// Calls `argon2::PasswordVerifier::verify_password` on the default `Argon2`,
/// which reads the hash and takes its parameters from it. The answer depends on
/// the two arguments alone. A hash that demands more memory than the machine
/// has cannot be computed, here as anywhere.
#[verifier::external_body]
pub(crate) fn argon2_verify(password: &[u8], stored: &str) -> (r: bool)
    ensures
        r == argon2_verified(password@, stored@),
{
    Argon2::default().verify_password(password, stored).is_ok()
}

/// Calls `argon2::PasswordHasher::hash_password` on the default `Argon2`, which
/// draws its own salt, so no two hashes of a password are alike. What it gives
/// is in PHC format, names Argon2id, and verifies the password it was made of.
/// That it succeeds rests on the machine's source of random numbers.
#[verifier::external_body]
pub(crate) fn argon2_hash(password: &[u8]) -> (r: Option<String>)
    ensures
        r matches Some(h) ==> argon2_verified(password@, h@) && text::starts(
            h@,
            "$argon2id$"@,
        ),
{
    match Argon2::default().hash_password(password) {
        Ok(h) => Some(h.to_string()),
        Err(_) => None,
    }
}

} // verus!
