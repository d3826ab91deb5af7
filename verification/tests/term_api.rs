use prism::auth::session::{KindClaims, SessionKey, TokenKind};
use prism::auth::{AuthPolicy, Authenticator};
use prism::config::TerminalConfig;
use prism::governor::Tier;
use prism::term::pty::WinSize;
use prism::term::session::{SessionManager, SpawnError, TermConfig};
use prism::term_api::{
    apply_tier, degraded, guard, manager_from, new_window, spawn_refusal, tier_allows_new_session, title_or_default,
    window,
};

#[test]
fn config_maps_across() {
    let cfg = TerminalConfig {
        enabled: true,
        shell: Some("/bin/zsh".into()),
        scrollback_bytes: 4096,
        max_sessions: 3,
        use_scope: false,
    };
    let t = manager_from(&cfg, None, None);
    assert_eq!(t.shell, "/bin/zsh");
    assert_eq!(t.scrollback_bytes, 4096);
    assert_eq!(t.max_sessions, 3);
    assert!(!t.use_scope);
}

#[test]
fn shell_falls_back_when_unset() {
    let cfg = TerminalConfig {
        shell: None,
        ..Default::default()
    };
    assert!(!manager_from(&cfg, None, None).shell.is_empty());
}

#[test]
fn degraded_tiers_shrink_scrollback() {
    let mut mgr = SessionManager::new(TermConfig {
        scrollback_bytes: 256 * 1024,
        use_scope: false,
        ..TermConfig::with_shell("/bin/sh".to_string())
    });
    // No sessions: the call must still be safe.
    apply_tier(&mut mgr, Tier::Black);
    apply_tier(&mut mgr, Tier::Green);
}

#[test]
fn scrollback_is_cut_when_things_are_worst() {
    let mut mgr = SessionManager::new(TermConfig { use_scope: false, ..TermConfig::with_shell("/bin/sh".to_string()) });
    let launch = mgr.create(&vec!["echo".to_string()], 0, 0).unwrap();
    let id = launch.id.clone();
    mgr.register(launch, "t", 9, 0);
    mgr.output(&id, &[b'x'; 100_000]);
    apply_tier(&mut mgr, Tier::Amber);
    assert_eq!(mgr.get(&id).unwrap().info().scrollback_bytes, 100_000);
    apply_tier(&mut mgr, Tier::Red);
    assert!(mgr.get(&id).unwrap().info().scrollback_bytes < 100_000);
    assert!(!mgr.get(&id).unwrap().has_exited());
}

#[test]
fn new_sessions_wait_for_better_times() {
    assert!(tier_allows_new_session("green") && tier_allows_new_session("amber"));
    assert!(!tier_allows_new_session("red") && !tier_allows_new_session("black"));
    assert_eq!(degraded().status, 503);
}

#[test]
fn a_window_has_a_usable_size() {
    assert_eq!(window(40, 132), WinSize { rows: 40, cols: 132 });
    assert_eq!(new_window(None, None), WinSize::default());
    assert!(window(0, 0).rows >= 1 && window(0, 0).cols >= 1);
    assert_eq!(title_or_default(Some("logs")), "logs");
    assert!(!title_or_default(None).is_empty());
}

#[test]
fn refusals_carry_their_status() {
    assert_eq!(spawn_refusal(SpawnError::TooMany).status, 429);
    assert_eq!(spawn_refusal(SpawnError::Disabled).status, 403);
}

#[test]
fn a_terminal_needs_a_session_and_to_be_enabled() {
    let key = SessionKey::from_bytes([3u8; 32]);
    let token = key.issue_kind(KindClaims { expires_at: 2000, kind: TokenKind::Session });
    let a = Authenticator::new(key, vec![1u8; 20], AuthPolicy::default());
    let bearer = format!("Bearer {token}");
    assert!(guard(true, &a, Some(&bearer), None, 1000).is_none());
    assert!(guard(false, &a, Some(&bearer), None, 1000).is_some());
    assert_eq!(guard(true, &a, None, None, 1000).unwrap().status, 401);
}

#[test]
fn a_small_scrollback_does_not_grow_under_pressure() {
    let cfg = TermConfig {
        use_scope: false,
        scrollback_bytes: 1024,
        ..TermConfig::with_shell("/bin/sh".to_string())
    };
    let mut mgr = SessionManager::new(cfg);
    assert!(mgr.has_number_left());
    let launch = mgr.create(&vec!["echo".to_string()], 0, 0).unwrap();
    let id = launch.id.clone();
    mgr.register(launch, "t", 9, 0);
    for tier in [Tier::Red, Tier::Black, Tier::Green] {
        apply_tier(&mut mgr, tier);
        mgr.output(&id, &[b'x'; 50_000]);
        assert_eq!(mgr.get(&id).unwrap().info().scrollback_bytes, 1024);
    }
}
