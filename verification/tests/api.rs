use prism::api::{
    answer_to, cookie, denial, device_cookie, device_token, login, prompt_name, require, session_cookie,
    session_token, too_many_attempts, LoginAnswer, Vitals, VramVitals,
};
use prism::auth::session::SessionKey;
use prism::auth::totp::{format_code, totp_at};
use prism::auth::{AuthOutcome, AuthPolicy, Authenticator, CodeOutcome, LoginPrompt, Sensitivity};
use prism::governor::Tier;
use prism::sensors::disk::MountUsage;
use prism::sensors::memory::MemorySnapshot;

const NOW: u64 = 1_700_000_000;

const SECRET: [u8; 20] = *b"12345678901234567890";

fn auth() -> Authenticator {
    Authenticator::new(SessionKey::from_bytes([7u8; 32]), SECRET.to_vec(), AuthPolicy::default())
}

#[test]
fn extracts_bearer_token() {
    assert_eq!(session_token(Some("Bearer abc.def"), None).as_deref(), Some("abc.def"));
}

#[test]
fn extracts_session_cookie() {
    let cookies = Some("other=1; prism_session=tok.en; another=2");
    assert_eq!(session_token(None, cookies).as_deref(), Some("tok.en"));
}

#[test]
fn ignores_similarly_named_cookies() {
    // Must not match `prism_session_backup` or `not_prism_session`.
    let cookies = Some("prism_session_backup=nope; not_prism_session=no");
    assert_eq!(session_token(None, cookies), None);
}

#[test]
fn no_credentials_yields_none() {
    assert_eq!(session_token(None, None), None);
}

#[test]
fn non_bearer_authorization_is_ignored() {
    assert_eq!(session_token(Some("Basic dXNlcjpwYXNz"), None), None);
}

#[test]
fn session_and_device_cookies_are_read_independently() {
    // Clearing a session must not un-enrol the browser, so the two must
    // never be confused for one another.
    let cookies = Some("prism_device=dev.tok; prism_session=sess.tok");
    assert_eq!(session_token(None, cookies).as_deref(), Some("sess.tok"));
    assert_eq!(device_token(cookies).as_deref(), Some("dev.tok"));
}

#[test]
fn a_device_cookie_alone_yields_no_session() {
    let cookies = Some("prism_device=dev.tok");
    assert_eq!(session_token(None, cookies), None);
    assert_eq!(device_token(cookies).as_deref(), Some("dev.tok"));
}

#[test]
fn a_cookie_is_found_by_its_name() {
    assert_eq!(cookie(Some("a=1; b=x=y"), "b").as_deref(), Some("x=y"));
    assert_eq!(cookie(Some("a=1"), "b"), None);
    assert_eq!(cookie(None, "b"), None);
}

#[test]
fn a_cookie_that_was_set_is_read_back() {
    let set = session_cookie("tok.en", 60);
    assert_eq!(set, "prism_session=tok.en; Path=/; HttpOnly; SameSite=Strict; Max-Age=60");
    assert_eq!(session_token(None, Some(&set)).as_deref(), Some("tok.en"));
    assert_eq!(device_token(Some(&device_cookie("dev", 5))).as_deref(), Some("dev"));
}

#[test]
fn each_outcome_is_answered_in_its_own_way() {
    assert!(denial(AuthOutcome::Granted).is_none());
    let out = denial(AuthOutcome::Unauthenticated).unwrap();
    assert_eq!((out.status, out.error), (401, "unauthenticated"));
    let locked = denial(AuthOutcome::LockedOut { retry_after_secs: 12 }).unwrap();
    assert_eq!(locked.status, 429);
    assert_eq!(locked.detail, too_many_attempts(12));
    assert!(too_many_attempts(12).contains("12"));
}

#[test]
fn a_code_signs_in_and_enrols_and_the_session_is_let_through() {
    let mut a = auth();
    let code = format_code(totp_at(&SECRET, NOW));
    let (token, cookies) = match login(&mut a, Some(&code), None, None, NOW) {
        LoginAnswer::SignedIn { token, enrolled, cookies } => {
            assert!(enrolled);
            (token, cookies)
        },
        LoginAnswer::Refused(r) => panic!("refused: {r:?}"),
    };
    assert_eq!(cookies.len(), 2);
    let bearer = format!("Bearer {token}");
    assert!(require(&a, Some(&bearer), None, Sensitivity::Session, NOW).is_none());
    assert!(require(&a, None, Some(&cookies[0]), Sensitivity::Session, NOW).is_none());
    assert!(require(&a, None, None, Sensitivity::Session, NOW).is_some());
    assert!(require(&a, None, None, Sensitivity::Public, NOW).is_none());
}

#[test]
fn a_wrong_code_is_refused() {
    let mut a = auth();
    let wrong = format_code((totp_at(&SECRET, NOW) + 1) % 1_000_000);
    assert!(matches!(login(&mut a, Some(&wrong), None, None, NOW), LoginAnswer::Refused(r) if r.status == 401));
    assert!(matches!(login(&mut a, None, None, None, NOW), LoginAnswer::Refused(r) if r.status == 400));
}

#[test]
fn a_password_needs_an_enrolled_browser() {
    let mut a = auth();
    assert!(matches!(
        login(&mut a, None, Some("correct horse"), None, NOW),
        LoginAnswer::Refused(_)
    ));
}

#[test]
fn a_replayed_code_and_a_lockout_are_refused() {
    let p = AuthPolicy::default();
    assert!(matches!(answer_to(&p, CodeOutcome::Replayed, None, None), LoginAnswer::Refused(_)));
    assert!(matches!(
        answer_to(&p, CodeOutcome::LockedOut { retry_after_secs: 9 }, None, None),
        LoginAnswer::Refused(r) if r.status == 429
    ));
}

#[test]
fn prompts_have_names() {
    assert_eq!(prompt_name(LoginPrompt::Password), "password");
    assert_eq!(prompt_name(LoginPrompt::Code), "code");
}

#[test]
fn vitals_carry_the_figures_in_mebibytes() {
    let mem = MemorySnapshot {
        total_kb: 32_768_000,
        available_kb: 2048,
        swap_free_kb: 4096,
        honest_headroom_kb: 3072,
        ..Default::default()
    };
    let disk = MountUsage {
        path: "/".to_string(),
        total_kb: 1_048_576,
        available_kb: 524_288,
        inodes_total: 0,
        inodes_free: 0,
    };
    let vram = VramVitals {
        total_mib: 12288,
        ours_mib: 1,
        foreign_mib: 2,
        budget_mib: 3,
        overdraft_mib: 4,
        spill_liability_mib: 5,
    };
    let v = Vitals::from_sample(&mem, 250_000_000, Tier::Red, Some(&disk), Some(vram));
    assert_eq!(v.tier, "red");
    assert_eq!(v.stall_full, 250_000_000);
    assert_eq!(v.honest_headroom_mib, 3);
    assert_eq!(v.phantom_headroom_mib, 3);
    assert_eq!(v.total_mib, 32_000);
    let d = v.disk.unwrap();
    assert_eq!((d.free_mib, d.used_pct), (512, 50_000));
    assert_eq!(v.vram.unwrap().overdraft_mib, 4);
    assert_eq!(Vitals::default().tier, "");
}
