//! Time-based codes.

use prism::auth::totp::{
    base32_encode, counter_at, format_code, hotp, now_unix, provisioning_uri, seconds_told, totp_at, truncate,
    verify, VerifyOutcome,
};



/// RFC 6238 Appendix B uses this ASCII secret for the SHA-1 vectors.
const RFC_SECRET: &[u8] = b"12345678901234567890";

/// RFC 6238 Appendix B, truncated from the published 8-digit values to the
/// 6 digits this implementation uses. If these fail, the implementation is
/// wrong — not the vectors.
#[test]
fn matches_rfc6238_test_vectors() {
    let cases: &[(u64, u32)] = &[
        (59, 94287082 % 1_000_000),
        (1111111109, 7081804 % 1_000_000),
        (1111111111, 14050471 % 1_000_000),
        (1234567890, 89005924 % 1_000_000),
        (2000000000, 69279037 % 1_000_000),
        (20000000000, 65353130 % 1_000_000),
    ];
    for &(time, expected) in cases {
        assert_eq!(
            totp_at(RFC_SECRET, time),
            expected,
            "RFC 6238 vector failed at T={time}"
        );
    }
}

#[test]
fn counter_advances_every_thirty_seconds() {
    assert_eq!(counter_at(0), 0);
    assert_eq!(counter_at(29), 0);
    assert_eq!(counter_at(30), 1);
    assert_eq!(counter_at(59), 1);
    assert_eq!(counter_at(60), 2);
}

#[test]
fn codes_are_six_digits_zero_padded() {
    // Find a counter producing a value below 100000 to exercise padding.
    let mut padded = None;
    for t in 0..5000u64 {
        let code = totp_at(RFC_SECRET, t * 30);
        if code < 100_000 {
            padded = Some(format_code(code));
            break;
        }
    }
    let padded = padded.expect("some code is below 100000");
    assert_eq!(padded.len(), 6, "codes must always render as 6 digits");
}

#[test]
fn accepts_the_current_code() {
    let now = 1_700_000_000;
    let code = format_code(totp_at(RFC_SECRET, now));
    assert!(matches!(
        verify(RFC_SECRET, &code, now, 1),
        VerifyOutcome::Valid { .. }
    ));
}

#[test]
fn accepts_within_skew_and_rejects_beyond_it() {
    let now = 1_700_000_000;
    let previous = format_code(totp_at(RFC_SECRET, now - 30));
    let ancient = format_code(totp_at(RFC_SECRET, now - 300));

    assert!(matches!(
        verify(RFC_SECRET, &previous, now, 1),
        VerifyOutcome::Valid { .. }
    ));
    assert_eq!(
        verify(RFC_SECRET, &ancient, now, 1),
        VerifyOutcome::Invalid,
        "a code from five minutes ago must not be accepted"
    );
}

#[test]
fn zero_skew_rejects_the_previous_step() {
    let now = 1_700_000_000;
    let previous = format_code(totp_at(RFC_SECRET, now - 30));
    assert_eq!(verify(RFC_SECRET, &previous, now, 0), VerifyOutcome::Invalid);
}

#[test]
fn returns_the_counter_so_replay_can_be_prevented() {
    let now = 1_700_000_000;
    let code = format_code(totp_at(RFC_SECRET, now));
    match verify(RFC_SECRET, &code, now, 1) {
        VerifyOutcome::Valid { counter } => assert_eq!(counter, counter_at(now)),
        VerifyOutcome::Invalid => panic!("should have verified"),
    }
}

#[test]
fn rejects_malformed_input_without_panicking() {
    let now = 1_700_000_000;
    for bad in ["", "12345", "1234567", "abcdef", "12 456", "  ", "-12345"] {
        assert_eq!(
            verify(RFC_SECRET, bad, now, 1),
            VerifyOutcome::Invalid,
            "input {bad:?} must be rejected"
        );
    }
}

#[test]
fn wrong_code_is_rejected() {
    let now = 1_700_000_000;
    let correct = totp_at(RFC_SECRET, now);
    let wrong = format_code((correct + 1) % 1_000_000);
    assert_eq!(verify(RFC_SECRET, &wrong, now, 1), VerifyOutcome::Invalid);
}

#[test]
fn different_secrets_produce_different_codes() {
    let now = 1_700_000_000;
    let a = totp_at(b"12345678901234567890", now);
    let b = totp_at(b"09876543210987654321", now);
    assert_ne!(a, b);
}

/// RFC 4648 §10 test vectors.
#[test]
fn base32_matches_rfc4648() {
    assert_eq!(base32_encode(b""), "");
    assert_eq!(base32_encode(b"f"), "MY");
    assert_eq!(base32_encode(b"fo"), "MZXQ");
    assert_eq!(base32_encode(b"foo"), "MZXW6");
    assert_eq!(base32_encode(b"foob"), "MZXW6YQ");
    assert_eq!(base32_encode(b"fooba"), "MZXW6YTB");
    assert_eq!(base32_encode(b"foobar"), "MZXW6YTBOI");
}

#[test]
fn provisioning_uri_is_well_formed() {
    let uri = provisioning_uri(RFC_SECRET, "Prism", "raahats@c2");
    assert!(uri.starts_with("otpauth://totp/Prism:raahats@c2?"));
    assert!(uri.contains("secret=GEZDGNBVGY3TQOJQGEZDGNBVGY3TQOJQ"));
    assert!(uri.contains("algorithm=SHA1"));
    assert!(uri.contains("digits=6"));
    assert!(uri.contains("period=30"));
}



#[test]
fn counters_give_the_codes_of_the_standard() {
    // RFC 4226, appendix D.
    let expected = [755224, 287082, 359152, 969429, 338314, 254676, 287922, 162583, 399871, 520489];
    for (i, code) in expected.iter().enumerate() {
        assert_eq!(hotp(RFC_SECRET, i as u64, 6), *code);
    }
}

#[test]
fn a_digest_is_truncated_as_the_standard_shows() {
    // RFC 4226, section 5.4.
    let digest = [
        0x1f, 0x86, 0x98, 0x69, 0x0e, 0x02, 0xca, 0x16, 0x61, 0x85, 0x50, 0xef, 0x7f, 0x19, 0xda,
        0x8e, 0x94, 0x5b, 0x55, 0x5a,
    ];
    assert_eq!(truncate(&digest, 6), 872921);
}

#[test]
fn the_clock_is_past_the_turn_of_the_century() {
    assert!(now_unix() > 946_684_800);
}

#[test]
fn a_clock_before_the_epoch_tells_zero() {
    assert_eq!(seconds_told(Some(1_700_000_000)), 1_700_000_000);
    assert_eq!(seconds_told(Some(0)), 0);
    assert_eq!(seconds_told(None), 0);
    // Far past the epoch on any machine that runs this.
    assert!(now_unix() > 1_600_000_000);
}
