//! Signing in, staying signed in, and being kept out.

use prism::auth::session::SessionKey;
use prism::auth::totp;
use prism::auth::totp::VerifyOutcome;
use prism::auth::{
    password, AuthOutcome, AuthPolicy, Authenticator, CodeOutcome, LoginPrompt, Sensitivity,
};



const SECRET: &[u8] = b"12345678901234567890";
const NOW: u64 = 1_700_000_000;
const PASSWORD: &str = "a good long password";

fn auth() -> Authenticator {
    Authenticator::new(
        SessionKey::from_bytes([3u8; 32]),
        SECRET.to_vec(),
        AuthPolicy::default(),
    )
}

fn auth_with_password() -> Authenticator {
    auth().with_password_hash(Some(password::hash(PASSWORD).unwrap()))
}

fn code_at(t: u64) -> String {
    totp::format_code(totp::totp_at(SECRET, t))
}

#[test]
fn public_needs_nothing() {
    assert_eq!(
        auth().authorize(None, Sensitivity::Public, NOW),
        AuthOutcome::Granted
    );
}

#[test]
fn session_tier_rejects_missing_token() {
    assert_eq!(
        auth().authorize(None, Sensitivity::Session, NOW),
        AuthOutcome::Unauthenticated
    );
}

#[test]
fn a_code_both_unlocks_and_enrols() {
    // Entering a code is a complete sign-in, not a step toward one.
    let mut a = auth();
    let (outcome, session, device) = a.submit_code(&code_at(NOW), NOW);
    assert_eq!(outcome, CodeOutcome::Accepted);
    assert!(session.is_some() && device.is_some());
    assert_eq!(
        a.authorize(session.as_deref(), Sensitivity::Session, NOW),
        AuthOutcome::Granted
    );
}

/// The whole point of the redesign.
#[test]
fn a_session_does_not_lapse_while_it_is_being_used() {
    // The old design demanded a fresh code every 15 minutes. A session now
    // lasts its full lifetime with no interruption.
    let mut a = auth();
    let (_, session, _) = a.submit_code(&code_at(NOW), NOW);
    let token = session.unwrap();
    for hours in [1, 6, 24, 24 * 20] {
        let later = NOW + hours * 3600;
        assert_eq!(
            a.authorize(Some(&token), Sensitivity::Session, later),
            AuthOutcome::Granted,
            "should still be authorised {hours}h later"
        );
    }
}

#[test]
fn a_device_token_alone_authorises_nothing() {
    // Otherwise a stolen laptop would need no password.
    let mut a = auth();
    let (_, _, device) = a.submit_code(&code_at(NOW), NOW);
    assert_eq!(
        a.authorize(device.as_deref(), Sensitivity::Session, NOW),
        AuthOutcome::Unauthenticated
    );
}

#[test]
fn an_enrolled_device_with_a_password_is_asked_for_the_password() {
    let mut a = auth_with_password();
    let (_, _, device) = a.submit_code(&code_at(NOW), NOW);
    assert_eq!(a.prompt_for(device.as_deref(), NOW), LoginPrompt::Password);
}

#[test]
fn an_unenrolled_device_is_asked_for_a_code() {
    let mut a = auth_with_password();
    assert_eq!(a.prompt_for(None, NOW), LoginPrompt::Code);
}

#[test]
fn with_no_password_set_the_code_is_the_only_way_in() {
    // A fresh install must not offer a shortcut that cannot be used.
    let mut a = auth();
    let (_, _, device) = a.submit_code(&code_at(NOW), NOW);
    assert_eq!(a.prompt_for(device.as_deref(), NOW), LoginPrompt::Code);
    assert_eq!(
        a.submit_password(PASSWORD, device.as_deref(), NOW).0,
        CodeOutcome::Rejected
    );
}

#[test]
fn the_password_unlocks_an_enrolled_device() {
    let mut a = auth_with_password();
    let (_, _, device) = a.submit_code(&code_at(NOW), NOW);
    let (outcome, session) = a.submit_password(PASSWORD, device.as_deref(), NOW);
    assert_eq!(outcome, CodeOutcome::Accepted);
    assert_eq!(
        a.authorize(session.as_deref(), Sensitivity::Session, NOW),
        AuthOutcome::Granted
    );
}

#[test]
fn the_password_is_useless_without_an_enrolled_device() {
    // Otherwise it would be a single factor reachable from any browser on
    // the tailnet — weaker than what it replaced.
    let mut a = auth_with_password();
    assert_eq!(
        a.submit_password(PASSWORD, None, NOW).0,
        CodeOutcome::Rejected
    );
}

#[test]
fn a_wrong_password_is_refused() {
    let mut a = auth_with_password();
    let (_, _, device) = a.submit_code(&code_at(NOW), NOW);
    assert_eq!(
        a.submit_password("not the password", device.as_deref(), NOW).0,
        CodeOutcome::Rejected
    );
}

#[test]
fn a_code_cannot_be_replayed_within_its_window() {
    let mut a = auth();
    let code = code_at(NOW);
    assert_eq!(a.submit_code(&code, NOW).0, CodeOutcome::Accepted);
    assert_eq!(
        a.submit_code(&code, NOW + 1).0,
        CodeOutcome::Replayed,
        "an intercepted code must not be reusable inside its 30s life"
    );
}

#[test]
fn replay_does_not_count_toward_lockout() {
    // Otherwise anyone who captured one code could lock the operator out.
    let mut a = auth();
    let code = code_at(NOW);
    a.submit_code(&code, NOW);
    for _ in 0..10 {
        assert_eq!(a.submit_code(&code, NOW).0, CodeOutcome::Replayed);
    }
    let (_, session, _) = a.submit_code(&code_at(NOW + 60), NOW + 60);
    assert!(session.is_some(), "real operator must still be able to log in");
}

#[test]
fn repeated_wrong_codes_lock_out() {
    let mut a = auth();
    let mut locked = false;
    for _ in 0..a.policy().max_failures {
        if let CodeOutcome::LockedOut { .. } = a.submit_code("000000", NOW).0 {
            locked = true;
        }
    }
    assert!(locked, "should lock out after max_failures");
    assert!(matches!(
        a.submit_code(&code_at(NOW), NOW).0,
        CodeOutcome::LockedOut { .. }
    ));
}

#[test]
fn wrong_passwords_lock_out_too() {
    // The quick path must not be a cheaper way to guess.
    let mut a = auth_with_password();
    let (_, _, device) = a.submit_code(&code_at(NOW), NOW);
    let mut locked = false;
    for _ in 0..a.policy().max_failures {
        if let CodeOutcome::LockedOut { .. } =
            a.submit_password("wrong", device.as_deref(), NOW).0
        {
            locked = true;
        }
    }
    assert!(locked);
}

#[test]
fn lockout_expires() {
    let mut a = auth();
    for _ in 0..a.policy().max_failures {
        a.submit_code("000000", NOW);
    }
    let after = NOW + a.policy().lockout_secs + 1;
    assert_eq!(a.submit_code(&code_at(after), after).0, CodeOutcome::Accepted);
}

#[test]
fn forged_tokens_are_unauthenticated() {
    let mut a = auth();
    assert_eq!(
        a.authorize(Some("v1.99999999999.s.deadbeef"), Sensitivity::Session, NOW),
        AuthOutcome::Unauthenticated
    );
}

#[test]
fn expired_sessions_are_unauthenticated() {
    let mut a = auth();
    let (_, session, _) = a.submit_code(&code_at(NOW), NOW);
    let expired = NOW + a.policy().session_ttl_secs + 1;
    assert_eq!(
        a.authorize(session.as_deref(), Sensitivity::Session, expired),
        AuthOutcome::Unauthenticated
    );
}

#[test]
fn a_device_stays_enrolled_far_longer_than_a_session() {
    // Re-enrolling needs the phone; re-unlocking does not. The asymmetry is
    // deliberate.
    let p = AuthPolicy::default();
    assert!(p.device_ttl_secs > p.session_ttl_secs * 10);
}

#[test]
fn tiers_are_ordered_by_strictness() {
    assert!(Sensitivity::Public < Sensitivity::Session);
}


#[test]
fn what_was_seen_in_a_code_decides_what_comes_of_it() {
    let mut a = auth();
    let (outcome, session, device) = a.code_checked(VerifyOutcome::Valid { counter: 56_666_666 }, NOW);
    assert_eq!(outcome, CodeOutcome::Accepted);
    assert!(session.is_some() && device.is_some());
    let (again, session, device) = a.code_checked(VerifyOutcome::Valid { counter: 56_666_666 }, NOW);
    assert_eq!(again, CodeOutcome::Replayed);
    assert!(session.is_none() && device.is_none());
    assert_eq!(a.code_checked(VerifyOutcome::Invalid, NOW).0, CodeOutcome::Rejected);
}

#[test]
fn whether_a_password_matched_decides_what_comes_of_it() {
    let mut a = auth();
    let (outcome, session) = a.password_checked(LoginPrompt::Password, true, NOW);
    assert_eq!(outcome, CodeOutcome::Accepted);
    assert!(session.is_some());
    assert_eq!(a.password_checked(LoginPrompt::Password, false, NOW).0, CodeOutcome::Rejected);
    assert_eq!(a.password_checked(LoginPrompt::Code, true, NOW).0, CodeOutcome::Rejected);
}

#[test]
fn a_lockout_tells_how_long_it_lasts() {
    let mut a = auth();
    for _ in 0..4 {
        assert_eq!(a.code_checked(VerifyOutcome::Invalid, NOW).0, CodeOutcome::Rejected);
    }
    assert_eq!(
        a.code_checked(VerifyOutcome::Invalid, NOW).0,
        CodeOutcome::LockedOut { retry_after_secs: 300 }
    );
    assert_eq!(
        a.authorize(None, Sensitivity::Session, NOW + 100),
        AuthOutcome::LockedOut { retry_after_secs: 200 }
    );
    assert_eq!(a.authorize(None, Sensitivity::Public, NOW + 100), AuthOutcome::Granted);
}

#[test]
fn a_code_is_accepted_once_over_a_whole_history() {
    let mut a = auth();
    let mut accepted = Vec::new();
    for t in (NOW..NOW + 300).step_by(10) {
        let code = code_at(t);
        let (outcome, session, device) = a.submit_code(&code, t);
        let fresh = !accepted.contains(&totp::counter_at(t));
        assert_eq!(outcome, if fresh { CodeOutcome::Accepted } else { CodeOutcome::Replayed });
        assert_eq!(session.is_some() && device.is_some(), fresh);
        accepted.push(totp::counter_at(t));
    }
}

#[test]
fn a_mix_of_wrong_codes_and_passwords_locks_out() {
    let mut a = auth_with_password();
    let (_, _, device) = a.submit_code(&code_at(NOW), NOW);
    let device = device.unwrap();
    assert_eq!(a.submit_code("000000", NOW + 1).0, CodeOutcome::Rejected);
    assert_eq!(a.submit_password("wrong", Some(&device), NOW + 5).0, CodeOutcome::Rejected);
    assert_eq!(a.submit_code(&code_at(NOW), NOW + 6).0, CodeOutcome::Replayed);
    assert_eq!(a.submit_password(PASSWORD, None, NOW + 7).0, CodeOutcome::Rejected);
    assert_eq!(a.submit_password("wrong", Some(&device), NOW + 9).0, CodeOutcome::Rejected);
    assert_eq!(a.submit_code("000000", NOW + 20).0, CodeOutcome::Rejected);
    let at = NOW + 40;
    assert_eq!(a.submit_code("000000", at).0, CodeOutcome::LockedOut { retry_after_secs: 300 });
    assert_eq!(a.submit_code(&code_at(at), at + 10).0, CodeOutcome::LockedOut { retry_after_secs: 290 });
    assert_eq!(
        a.submit_password(PASSWORD, Some(&device), at + 299).0,
        CodeOutcome::LockedOut { retry_after_secs: 1 }
    );
    assert_eq!(a.submit_code(&code_at(at + 300), at + 300).0, CodeOutcome::Accepted);
}

#[test]
fn a_password_asks_nothing_of_what_only_codes_use() {
    let hash = password::hash(PASSWORD).unwrap();
    let key = || SessionKey::from_bytes([3u8; 32]);
    let mut first = Authenticator::new(key(), SECRET.to_vec(), AuthPolicy::default());
    let device = first.submit_code(&code_at(NOW), NOW).2.unwrap();
    let policy = AuthPolicy { device_ttl_secs: u64::MAX, totp_skew_steps: u64::MAX, ..AuthPolicy::default() };
    let mut a = Authenticator::new(key(), SECRET.to_vec(), policy).with_password_hash(Some(hash));
    assert_eq!(a.submit_password(PASSWORD, Some(&device), NOW + 1).0, CodeOutcome::Accepted);
}

#[test]
fn a_device_token_is_no_session_neither_now_nor_after() {
    let mut a = auth();
    let device = a.submit_code(&code_at(NOW), NOW).2.unwrap();
    for t in [NOW, NOW + 1000, NOW + 2 * a.policy().device_ttl_secs] {
        assert_eq!(a.authorize(Some(&device), Sensitivity::Session, t), AuthOutcome::Unauthenticated);
    }
}
