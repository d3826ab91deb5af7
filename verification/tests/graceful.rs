use prism::governor::Tier;
use prism::graceful::{prepare, request, split_url, status_of, yielded, Deficit, UrlError};
use prism::graceful_config::{parse_duration, Graceful, HttpPost};

fn hook(url: &str, timeout: &str) -> Graceful {
    Graceful {
        http_post: HttpPost { url: url.to_string(), body: "{}".to_string(), content_type: None },
        timeout: timeout.to_string(),
    }
}

fn deficit() -> Deficit {
    Deficit {
        facet: "stargazer".into(),
        tier: Tier::Red,
        vram_overdraft_mib: Some(2560),
        vram_budget_mib: Some(4096),
        headroom_mib: 9000,
    }
}

#[test]
fn the_documented_comfyui_body_passes_through_untouched() {
    // A body without placeholders must arrive exactly as written.
    let body = r#"{"unload_models":true,"free_memory":true}"#;
    assert_eq!(deficit().render(body), body);
}

#[test]
fn placeholders_carry_the_deficit() {
    let rendered = deficit().render(
        r#"{"tier":"{tier}","give_back_mib":{vram_overdraft_mib},"keep_mib":{vram_budget_mib}}"#,
    );
    assert_eq!(
        rendered,
        r#"{"tier":"red","give_back_mib":2560,"keep_mib":4096}"#
    );
}

#[test]
fn an_unsensed_figure_is_null_not_zero() {
    // Zero says "you owe nothing", which is a claim. No GPU means Prism
    // does not know, and the workload should be able to tell the two apart.
    let d = Deficit { vram_overdraft_mib: None, ..deficit() };
    assert_eq!(d.render("{vram_overdraft_mib}"), "null");
}

#[test]
fn urls_split_with_and_without_a_port_or_path() {
    assert_eq!(
        split_url("http://127.0.0.1:8188/free").unwrap(),
        ("127.0.0.1".into(), 8188, "/free".into())
    );
    assert_eq!(
        split_url("http://localhost/x").unwrap(),
        ("localhost".into(), 80, "/x".into())
    );
    assert_eq!(
        split_url("http://127.0.0.1:9000").unwrap(),
        ("127.0.0.1".into(), 9000, "/".into())
    );
}

#[test]
fn https_is_refused_rather_than_sent_in_the_clear() {
    assert!(split_url("https://example.com/free").is_err());
}

#[test]
fn a_status_line_is_read_from_a_partial_response() {
    assert_eq!(status_of(b"HTTP/1.1 200 OK\r\nContent-Len"), Some(200));
    assert_eq!(status_of(b"HTTP/1.1 503 Service Unavailable\r\n"), Some(503));
    assert_eq!(status_of(b""), None);
}

#[test]
fn a_typo_in_the_timeout_does_not_stop_the_facet() {
    let g = Graceful {
        http_post: HttpPost { url: "http://x/y".into(), body: "{}".into(), content_type: None },
        timeout: "ten seconds".into(),
    };
    assert_eq!(g.timeout(), 10_000);
}

#[test]
fn durations_parse_in_the_units_the_config_uses() {
    assert_eq!(parse_duration("500ms"), Some(500));
    assert_eq!(parse_duration("2m"), Some(120_000));
    assert_eq!(parse_duration("1h"), Some(3_600_000));
    assert_eq!(parse_duration("30"), Some(30_000));
}

#[test]
fn the_documented_block_parses() {
    let g = Graceful {
        http_post: HttpPost {
            url: "http://127.0.0.1:8188/free".to_string(),
            body: r#"{"unload_models":true,"free_memory":true}"#.to_string(),
            content_type: None,
        },
        timeout: "10s".to_string(),
    };
    assert_eq!(g.http_post.url, "http://127.0.0.1:8188/free");
    assert_eq!(g.timeout(), 10_000);
    assert_eq!(g.content_type(), "application/json");
}

#[test]
fn a_missing_timeout_is_the_documented_default() {
    let g = hook("http://x/y", &prism::graceful_config::default_timeout());
    assert_eq!(g.timeout(), 10_000);
}

#[test]
fn what_is_no_duration_is_none() {
    assert_eq!(parse_duration("ten seconds"), None);
    assert_eq!(parse_duration("1d"), None);
    assert_eq!(parse_duration(""), None);
}

#[test]
fn a_request_names_its_host_and_counts_its_bytes() {
    assert_eq!(
        request("127.0.0.1", 8188, "/free", "application/json", "{\"x\":\"\u{e9}\"}"),
        "POST /free HTTP/1.1\r\nHost: 127.0.0.1:8188\r\nContent-Type: application/json\r\n\
         Content-Length: 10\r\nConnection: close\r\n\r\n{\"x\":\"\u{e9}\"}"
    );
}

#[test]
fn a_prepared_post_goes_where_the_url_says() {
    let post = prepare(&hook("http://127.0.0.1:1/free", "1s"), &deficit()).unwrap();
    assert_eq!(post.host, "127.0.0.1");
    assert_eq!(post.port, 1);
    assert_eq!(post.timeout_ms, 1000);
    assert!(post.request.starts_with("POST /free HTTP/1.1\r\n"));
    assert!(post.request.ends_with("\r\n\r\n{}"));
}

#[test]
fn each_unusable_url_is_told_apart() {
    assert_eq!(split_url("https://example.com/free"), Err(UrlError::NotHttp));
    assert_eq!(split_url("http:///free"), Err(UrlError::NoHost));
    assert!(matches!(prepare(&hook("ftp://x", "1s"), &deficit()), Err(UrlError::NotHttp)));
}

#[test]
fn success_and_redirection_count_as_yielding() {
    assert!(yielded(200) && yielded(204) && yielded(399));
    assert!(!yielded(199) && !yielded(400) && !yielded(503));
}

#[test]
fn a_reply_that_is_not_text_has_no_status() {
    assert_eq!(status_of(b"HTTP/1.1 204 \xff\xfe\r\n"), None);
    assert_eq!(status_of(b"HTTP/1.1"), None);
    assert_eq!(status_of(b"HTTP/1.1 soon"), None);
}

#[test]
fn a_timeout_that_no_clock_holds_is_ten_seconds() {
    assert_eq!(parse_duration("18446744073709551615m"), None);
    assert_eq!(hook("http://x/y", "18446744073709551615m").timeout(), 10_000);
    assert_eq!(parse_duration("18446744073709551615s"), Some(18_446_744_073_709_551_615_000));
    assert_eq!(parse_duration("18446744073709551615ms"), Some(18_446_744_073_709_551_615));
}
