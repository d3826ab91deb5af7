//! Tokens: signed, checked, and never mistaken for one another.

use prism::auth::session::{
    claims_from, kind_claims_from, stored_key, token_parts, Claims, KindClaims, SessionKey, TokenError, TokenKind,
};



fn key() -> SessionKey {
    SessionKey::from_bytes([7u8; 32])
}

fn claims(now: u64) -> Claims {
    Claims {
        expires_at: now + 3600,
        totp_verified_at: now,
    }
}

#[test]
fn round_trips() {
    let now = 1_700_000_000;
    let k = key();
    let token = k.issue(claims(now));
    assert_eq!(k.validate(&token, now), Ok(claims(now)));
}

#[test]
fn rejects_a_tampered_payload() {
    let now = 1_700_000_000;
    let k = key();
    let token = k.issue(claims(now));
    // Extend the expiry by hand — the classic forgery attempt.
    let parts: Vec<&str> = token.split('.').collect();
    let forged = format!("{}.{}.{}.{}", parts[0], now + 999_999, parts[2], parts[3]);
    assert_eq!(k.validate(&forged, now), Err(TokenError::BadSignature));
}

#[test]
fn rejects_a_token_signed_with_another_key() {
    let now = 1_700_000_000;
    let token = key().issue(claims(now));
    let other = SessionKey::from_bytes([9u8; 32]);
    assert_eq!(other.validate(&token, now), Err(TokenError::BadSignature));
}

#[test]
fn rejects_expired_tokens() {
    let now = 1_700_000_000;
    let k = key();
    let token = k.issue(Claims {
        expires_at: now + 10,
        totp_verified_at: now,
    });
    assert_eq!(k.validate(&token, now + 11), Err(TokenError::Expired));
}

#[test]
fn expiry_boundary_is_exclusive() {
    let now = 1_700_000_000;
    let k = key();
    let token = k.issue(Claims {
        expires_at: now + 10,
        totp_verified_at: now,
    });
    assert!(k.validate(&token, now + 9).is_ok());
    assert_eq!(k.validate(&token, now + 10), Err(TokenError::Expired));
}

#[test]
fn rejects_malformed_tokens_without_panicking() {
    let k = key();
    for bad in [
        "",
        "garbage",
        "v1.1.2",
        "v1.1.2.3.4",
        "v1.notanumber.2.deadbeef",
        "....",
    ] {
        assert!(
            k.validate(bad, 1_700_000_000).is_err(),
            "token {bad:?} must be rejected"
        );
    }
}

#[test]
fn rejects_a_different_version() {
    let now = 1_700_000_000;
    let k = key();
    let token = k.issue(claims(now)).replacen("v1", "v2", 1);
    assert_eq!(k.validate(&token, now), Err(TokenError::WrongVersion));
}

#[test]
fn signature_is_checked_before_expiry() {
    // A forged *and* expired token must report BadSignature, never Expired:
    // reporting Expired would confirm the signature was accepted, telling an
    // attacker their forgery worked.
    let now = 1_700_000_000;
    let k = key();
    let forged = format!("v1.{}.{}.{}", now - 100, now - 100, "00".repeat(32));
    assert_eq!(k.validate(&forged, now), Err(TokenError::BadSignature));
}



#[test]
fn a_token_of_a_kind_gives_back_its_claims() {
    let k = key();
    for kind in [TokenKind::Session, TokenKind::Device] {
        let claims = KindClaims { expires_at: 1_700_000_100, kind };
        let token = k.issue_kind(claims);
        assert_eq!(k.validate_kind(&token, 1_700_000_000), Ok(claims));
        assert_eq!(k.validate_kind(&token, 1_700_000_100), Err(TokenError::Expired));
    }
}

#[test]
fn the_two_shapes_are_not_taken_for_one_another() {
    let now = 1_700_000_000;
    let k = key();
    assert_eq!(k.validate_kind(&k.issue(claims(now)), now), Err(TokenError::Malformed));
    let kind = k.issue_kind(KindClaims { expires_at: now + 10, kind: TokenKind::Device });
    assert_eq!(k.validate(&kind, now), Err(TokenError::Malformed));
}

#[test]
fn the_parts_of_a_token_are_read_as_they_are_written() {
    assert_eq!(
        token_parts("v1.17.s.ab"),
        Ok(("17".to_string(), "s".to_string(), "ab".to_string()))
    );
    assert_eq!(token_parts("v1.17.s"), Err(TokenError::Malformed));
    assert_eq!(token_parts("v2.17.s.ab"), Err(TokenError::WrongVersion));
    assert_eq!(
        claims_from("20", "10", 19),
        Ok(Claims { expires_at: 20, totp_verified_at: 10 })
    );
    assert_eq!(claims_from("20", "x", 19), Err(TokenError::Malformed));
    assert_eq!(claims_from("20", "10", 20), Err(TokenError::Expired));
    assert_eq!(
        kind_claims_from("20", "d", 19),
        Ok(KindClaims { expires_at: 20, kind: TokenKind::Device })
    );
    assert_eq!(kind_claims_from("20", "z", 19), Err(TokenError::Malformed));
}

#[test]
fn a_signature_is_the_mac_of_what_precedes_it() {
    // HMAC-SHA256 under thirty-two sevens: not the payload, and of full length.
    let token = key().issue(Claims { expires_at: 2, totp_verified_at: 1 });
    let parts: Vec<&str> = token.split('.').collect();
    assert_eq!(&parts[..3], &["v1", "2", "1"]);
    assert_eq!(parts[3].len(), 64);
    assert_ne!(parts[3], "v1.2.1");
}

#[test]
fn a_stored_key_is_the_first_bytes_of_its_file() {
    let bytes: Vec<u8> = (0..40).collect();
    assert_eq!(stored_key(&bytes[..31]), None);
    assert_eq!(stored_key(&[]), None);
    let mut first = [0u8; 32];
    first.copy_from_slice(&bytes[..32]);
    assert_eq!(stored_key(&bytes[..32]), Some(first));
    assert_eq!(stored_key(&bytes), Some(first));
}
