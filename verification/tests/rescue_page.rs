use prism::auth::session::SessionKey;
use prism::auth::totp::{format_code, totp_at};
use prism::auth::{AuthPolicy, Authenticator, CodeOutcome, Sensitivity};
use prism::rescue::{
    entrance_for, esc, gib, login, login_page, page, remedy, show_failed, tier, truncate, DiskFree, Entrance, FacetRow, Live,
    ProcessRow, Shown,
};
use prism::supervisor::FacetStatus;

#[test]
fn escapes_html_metacharacters() {
    assert_eq!(esc("<script>"), "&lt;script&gt;");
    assert_eq!(esc("a&b"), "a&amp;b");
    assert_eq!(esc("\"quoted\""), "&quot;quoted&quot;");
    assert_eq!(esc("it's"), "it&#39;s");
}

#[test]
fn escapes_a_hostile_process_name() {
    // Any local user can name a process this; it must not reach the DOM.
    let hostile = r#"<img src=x onerror="alert(1)">"#;
    let escaped = esc(hostile);
    assert!(!escaped.contains('<'));
    assert!(!escaped.contains('>'));
    assert!(!escaped.contains('"'));
}

#[test]
fn plain_text_is_unchanged() {
    assert_eq!(esc("/usr/bin/python3 -m comfy"), "/usr/bin/python3 -m comfy");
}

#[test]
fn truncate_preserves_short_strings() {
    assert_eq!(truncate("short", 90), "short");
}

#[test]
fn truncate_is_char_safe_on_multibyte() {
    // Byte slicing here would panic mid-codepoint.
    let s = "日本語".repeat(50);
    let t = truncate(&s, 10);
    assert_eq!(t.chars().count(), 11); // 10 + ellipsis
}

#[test]
fn gib_formats_from_mib() {
    assert_eq!(gib(1024), "1.0 GiB");
    assert_eq!(gib(1536), "1.5 GiB");
    assert_eq!(gib(0), "0.0 GiB");
}

fn shown() -> Shown {
    Shown {
        tier: "red".to_string(),
        honest_mib: 1536,
        phantom_mib: 512,
        stall_full: 250_000_000,
        disk: Some(DiskFree { path: "/".to_string(), free_mib: 2048 }),
        facets: vec![FacetRow {
            id: "app".to_string(),
            name: "<b>App</b>".to_string(),
            status: FacetStatus::Running,
            memory_kb: Some(1_048_576),
        }],
        processes: vec![
            ProcessRow {
                pid: 42,
                comm: "<img>".to_string(),
                cmdline: "run".to_string(),
                rss_kb: 2_097_152,
                refusal: None,
            },
            ProcessRow {
                pid: 1,
                comm: "systemd".to_string(),
                cmdline: "init".to_string(),
                rss_kb: 1024,
                refusal: Some("pid 1".to_string()),
            },
        ],
        live: Some(Live {
            available_kb: 1_048_576,
            honest_kb: 1_572_864,
            disk: Some(DiskFree { path: "/<x>".to_string(), free_mib: 1024 }),
        }),
    }
}

#[test]
fn the_page_shows_the_state_and_lets_no_markup_through() {
    let html = page(&shown());
    assert!(html.contains("red"));
    assert!(html.contains("1.5 GiB"));
    assert!(html.contains("&lt;b&gt;App&lt;/b&gt;"));
    assert!(html.contains("&lt;img&gt;"));
    assert!(html.contains("/&lt;x&gt;"));
    assert!(!html.contains("<img>"));
    assert!(!html.contains("<script"), "the page needs no JavaScript");
}

#[test]
fn a_protected_process_has_no_button() {
    let html = page(&shown());
    assert_eq!(html.matches(r#"action="/rescue/kill""#).count(), 1);
    assert!(html.contains("pid 1"));
    assert_eq!(html.matches(r#"action="/rescue/facet/stop""#).count(), 1);
}

#[test]
fn the_login_page_says_what_went_wrong() {
    assert!(login_page(Some("wrong code")).contains("wrong code"));
    assert!(login_page(None).contains(r#"action="/rescue/login""#));
}

#[test]
fn a_code_opens_the_door_and_nothing_else_does() {
    const NOW: u64 = 1_700_000_000;
    let secret = [9u8; 20];
    let mut a = Authenticator::new(SessionKey::from_bytes([1u8; 32]), secret.to_vec(), AuthPolicy::default());
    assert!(matches!(login(&mut a, "000", NOW), Entrance::Asked { .. }));
    let code = format_code(totp_at(&secret, NOW));
    assert!(matches!(login(&mut a, &code, NOW), Entrance::Admitted { cookie } if cookie.starts_with("prism_session=")));
    assert!(matches!(login(&mut a, &code, NOW), Entrance::Asked { .. }), "a code is worth one use");
    assert!(matches!(
        entrance_for(CodeOutcome::LockedOut { retry_after_secs: 9 }, None, 60),
        Entrance::Asked { page } if page.contains('9')
    ));
    assert_eq!(tier(), Sensitivity::Session);
}

#[test]
fn only_named_remedies_are_run() {
    assert!(remedy("restart_shell").is_some());
    assert!(remedy("rm -rf /").is_none());
}

#[test]
fn a_truncated_text_is_bounded() {
    assert_eq!(truncate("abcdef", 3), "abc\u{2026}");
    assert_eq!(truncate("abc", 3), "abc");
}

#[test]
fn a_failure_is_written_as_debug_writes_it() {
    assert_eq!(show_failed("\"unit failed\""), "Failed(&quot;unit failed&quot;)");
    let mut s = shown();
    s.facets = vec![FacetRow {
        id: "a".to_string(),
        name: "A".to_string(),
        status: FacetStatus::Failed("<b>\n\\".to_string()),
        memory_kb: None,
    }];
    assert!(page(&s).contains("<td>Failed(&quot;&lt;b&gt;\\n\\\\&quot;)</td>"));
}
