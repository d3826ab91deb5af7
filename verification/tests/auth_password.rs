//! The unlock password.

use prism::auth::password::{hash, hashed, verify, PasswordError};



#[test]
fn a_correct_password_verifies() {
    let h = hash("correct horse battery").unwrap();
    assert!(verify("correct horse battery", &h));
}

#[test]
fn a_wrong_password_does_not() {
    let h = hash("correct horse battery").unwrap();
    assert!(!verify("incorrect horse battery", &h));
    assert!(!verify("", &h));
}

#[test]
fn the_same_password_hashes_differently_each_time() {
    // Salted: two accounts with the same password must not share a hash.
    let a = hash("same password here").unwrap();
    let b = hash("same password here").unwrap();
    assert_ne!(a, b);
    assert!(verify("same password here", &a));
    assert!(verify("same password here", &b));
}

#[test]
fn short_passwords_are_refused() {
    assert_eq!(hash("short").unwrap_err(), PasswordError::TooShort);
    assert!(hash("exactly8").is_ok());
}

#[test]
fn length_is_counted_in_characters_not_bytes() {
    // Eight emoji is eight characters; rejecting it as "too short" would be
    // wrong, and counting bytes would accept a much shorter one elsewhere.
    assert!(hash("🔐🔐🔐🔐🔐🔐🔐🔐").is_ok());
}

#[test]
fn a_corrupt_hash_fails_closed() {
    assert!(!verify("anything", "not a phc string"));
    assert!(!verify("anything", ""));
    assert!(!verify("anything", "$argon2id$v=19$garbage"));
}

#[test]
fn the_hash_is_phc_formatted_and_names_argon2id() {
    let h = hash("a good long password").unwrap();
    assert!(h.starts_with("$argon2id$"), "got {h}");
}

#[test]
fn whitespace_is_significant() {
    let h = hash("password with spaces").unwrap();
    assert!(!verify("passwordwithspaces", &h));
    assert!(!verify(" password with spaces", &h));
}


#[test]
fn a_hash_that_cannot_be_made_is_an_error() {
    assert_eq!(hashed("long enough", None), Err(PasswordError::Hashing));
    assert_eq!(hashed("short", None), Err(PasswordError::TooShort));
    assert_eq!(hashed("long enough", Some("made".to_string())), Ok("made".to_string()));
}
