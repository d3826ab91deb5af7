use prism::config::{Expose, Facet, FacetLimits};
use prism::gate::Gate;
use prism::proxy::{
    goes_back, goes_on, hop_by_hop, inject_base, inject_into, is_html, is_websocket, no_port, not_answering, on_answer,
    prefix, raw_suffix, rewrite_cookie, rewrite_cookies, rewrite_location, route, Answer,
};

fn facet(id: &str, expose: Option<Expose>) -> Facet {
    Facet {
        id: id.to_string(),
        name: "App".to_string(),
        command: vec!["run".to_string()],
        cwd: None,
        limits: FacetLimits::default(),
        enabled_if: Gate::default(),
        pty: false,
        expose,
        graceful: None,
        offloads_to_ram: false,
    }
}

#[test]
fn base_is_injected_after_the_head_tag() {
    let html = b"<html><head><title>x</title></head><body></body></html>";
    let out = String::from_utf8(inject_base(html, "/facet/app")).unwrap();
    assert!(out.contains(r#"<head><base href="/facet/app/">"#), "got {out}");
}

#[test]
fn base_precedes_any_resource_it_must_affect() {
    // A <base> after a <script src> does not apply to it, so position is
    // the whole point rather than mere tidiness.
    let html = b"<html><head><script src=\"app.js\"></script></head></html>";
    let out = String::from_utf8(inject_base(html, "/facet/app")).unwrap();
    let base = out.find("<base").unwrap();
    let script = out.find("<script").unwrap();
    assert!(base < script, "base must come first: {out}");
}

#[test]
fn a_head_with_attributes_is_handled() {
    let html = br#"<html><head lang="en" data-x="1"><title>x</title></head></html>"#;
    let out = String::from_utf8(inject_base(html, "/facet/app")).unwrap();
    assert!(out.contains(r#"data-x="1"><base href="/facet/app/">"#), "got {out}");
}

#[test]
fn uppercase_markup_is_handled() {
    let html = b"<HTML><HEAD><TITLE>x</TITLE></HEAD></HTML>";
    let out = String::from_utf8(inject_base(html, "/facet/app")).unwrap();
    assert!(out.contains(r#"<base href="/facet/app/">"#), "got {out}");
}

#[test]
fn an_app_that_sets_its_own_base_is_left_alone() {
    let html = br#"<html><head><base href="/custom/"></head></html>"#;
    let out = inject_base(html, "/facet/app");
    assert_eq!(out, html.to_vec());
}

#[test]
fn a_document_without_a_head_is_not_guessed_at() {
    let html = b"<html><body>bare</body></html>";
    assert_eq!(inject_base(html, "/facet/app"), html.to_vec());
}

#[test]
fn only_html_reaches_the_injector() {
    // inject_base is deliberately unguarded about content type — the caller
    // checks Content-Type first, because that is the only reliable signal.
    // JSON that happens to contain the literal "<head>" would be rewritten
    // if it ever got here, which is why it never does.
    let json = br#"{"note":"<head>"}"#;
    assert_ne!(
        inject_base(json, "/facet/app"),
        json.to_vec(),
        "what protects non-HTML is the look at its content type"
    );
}

#[test]
fn binary_content_is_left_intact_when_it_has_no_head() {
    // The realistic non-HTML case: nothing resembling markup, so even a
    // mistaken call is harmless.
    let png = b"\x89PNG\r\n\x1a\n\x00\x00\x00\rIHDR";
    assert_eq!(inject_base(png, "/facet/app"), png.to_vec());
}

#[test]
fn an_encoded_slash_survives_the_proxy() {
    // The bug that made ComfyUI's workflow list inert: %2F decoded to a
    // real slash turns one path segment into two, and the app 404s.
    assert_eq!(
        raw_suffix("/facet/comfyui/api/userdata/workflows%2FName.json", "comfyui"),
        "api/userdata/workflows%2FName.json"
    );
}

#[test]
fn encoded_spaces_and_plus_survive() {
    // These decode to characters that make the forwarded URI invalid.
    assert_eq!(
        raw_suffix("/facet/app/a%20b%2Bc.json", "app"),
        "a%20b%2Bc.json"
    );
}

#[test]
fn the_bare_and_trailing_slash_forms_both_yield_an_empty_path() {
    assert_eq!(raw_suffix("/facet/app", "app"), "");
    assert_eq!(raw_suffix("/facet/app/", "app"), "");
}

#[test]
fn nested_paths_keep_their_structure() {
    assert_eq!(
        raw_suffix("/facet/app/vendor/bootstrap/css/bootstrap.css", "app"),
        "vendor/bootstrap/css/bootstrap.css"
    );
}

#[test]
fn secure_is_dropped_because_prism_is_not_on_https() {
    // The exact failure this fixes: the browser silently discards a Secure
    // cookie on a plain-HTTP origin, so the login succeeds and the next
    // request is unauthenticated — which looks like the login page
    // reloading with no error.
    let out = rewrite_cookie("session=abc; Path=/; Secure; HttpOnly", "/facet/app");
    assert!(!out.to_lowercase().contains("secure"), "got {out}");
    assert!(out.contains("HttpOnly"), "unrelated flags must survive: {out}");
}

#[test]
fn a_scoped_path_has_no_trailing_slash() {
    // RFC 6265: cookie-path `/facet/app/` does not match a request for
    // `/facet/app`, so the slash would silently narrow the cookie.
    let out = rewrite_cookie("s=1; Path=/", "/facet/app");
    assert!(out.contains("Path=/facet/app;") || out.ends_with("Path=/facet/app"), "got {out}");
}

#[test]
fn a_root_path_is_scoped_to_the_prefix() {
    let out = rewrite_cookie("session=abc; Path=/", "/facet/app");
    assert!(out.contains("Path=/facet/app"), "got {out}");
}

#[test]
fn a_deeper_path_is_moved_under_the_prefix() {
    // Path=/rest would never match /facet/app/rest.
    let out = rewrite_cookie("t=1; Path=/rest", "/facet/app");
    assert!(out.contains("Path=/facet/app/rest"), "got {out}");
}

#[test]
fn an_already_scoped_path_is_left_alone() {
    let out = rewrite_cookie("t=1; Path=/facet/app/rest", "/facet/app");
    assert!(out.contains("Path=/facet/app/rest"), "got {out}");
    assert!(!out.contains("/facet/app/facet"), "double-prefixed: {out}");
}

#[test]
fn a_cookie_without_a_path_gets_one() {
    // Otherwise it defaults to the request's directory, which for a deep
    // API call is narrower than the app assumes.
    let out = rewrite_cookie("CSRF-Token-X=abc", "/facet/app");
    assert!(out.starts_with("CSRF-Token-X=abc"), "got {out}");
    assert!(out.contains("Path=/facet/app"), "got {out}");
}

#[test]
fn the_cookie_value_itself_is_never_touched() {
    let out = rewrite_cookie("s=aB3/+=xyz; Path=/; Secure", "/facet/app");
    assert!(out.starts_with("s=aB3/+=xyz"), "got {out}");
}

#[test]
fn a_root_relative_redirect_is_brought_under_the_prefix() {
    assert_eq!(
        rewrite_location("/login", "/facet/app", 8384).as_deref(),
        Some("/facet/app/login")
    );
}

#[test]
fn an_already_prefixed_redirect_is_left_alone() {
    // Prefixing twice would produce /facet/app/facet/app/login.
    assert_eq!(rewrite_location("/facet/app/login", "/facet/app", 8384), None);
}

#[test]
fn a_redirect_to_the_apps_own_address_is_folded_back() {
    // The browser cannot reach the app's loopback address; only Prism can.
    assert_eq!(
        rewrite_location("http://127.0.0.1:8384/gui/", "/facet/app", 8384).as_deref(),
        Some("/facet/app/gui/")
    );
    assert_eq!(
        rewrite_location("https://127.0.0.1:8384/", "/facet/app", 8384).as_deref(),
        Some("/facet/app/")
    );
    assert_eq!(
        rewrite_location("http://localhost:8384/x", "/facet/app", 8384).as_deref(),
        Some("/facet/app/x")
    );
}

#[test]
fn a_redirect_elsewhere_is_the_apps_business() {
    // Rewriting this would break an OAuth flow or an outbound link.
    assert_eq!(
        rewrite_location("https://accounts.example.com/auth", "/facet/app", 8384),
        None
    );
    // A different port is a different service.
    assert_eq!(
        rewrite_location("http://127.0.0.1:9999/x", "/facet/app", 8384),
        None
    );
}

#[test]
fn hop_by_hop_headers_are_named_in_lowercase() {
    // They are matched against HeaderMap keys, which are lowercase.
    for h in hop_by_hop() {
        assert_eq!(h, h.to_lowercase(), "{h} must be lowercase");
    }
}

#[test]
fn connection_and_upgrade_are_stripped() {
    // Forwarding these would describe a hop the app is not part of.
    assert!(hop_by_hop().contains(&"connection"));
    assert!(hop_by_hop().contains(&"upgrade"));
}

#[test]
fn every_set_cookie_header_is_rewritten_not_just_the_first() {
    let all = rewrite_cookies(&vec!["a=1; Secure".to_string(), "b=2; Secure".to_string()], "/facet/app");
    assert_eq!(all.len(), 2, "both must survive: {all:?}");
    assert!(all.iter().all(|c| !c.to_lowercase().contains("secure")), "{all:?}");
}

#[test]
fn headers_of_this_hop_stay_on_it() {
    assert!(!goes_back("connection") && !goes_on("connection"));
    assert!(!goes_on("host"));
    assert!(goes_back("content-type") && goes_on("accept"));
}

#[test]
fn a_longer_port_is_another_service() {
    assert_eq!(rewrite_location("http://127.0.0.1:83840/x", "/facet/app", 8384), None);
    assert_eq!(rewrite_location("http://127.0.0.1:8384", "/facet/app", 8384).as_deref(), Some("/facet/app/"));
}

#[test]
fn a_request_goes_to_the_port_of_its_facet() {
    let facets = vec![facet("app", Some(Expose { port: 8384, tls: false })), facet("bare", None)];
    let r = route(&facets, &vec![], "app", "a%2Fb", Some("q=1")).unwrap();
    assert_eq!((r.port, r.tls), (8384, false));
    assert_eq!(r.target, "http://127.0.0.1:8384/a%2Fb?q=1");
    let r = route(&facets, &vec!["app".to_string()], "app", "", None).unwrap();
    assert!(r.tls);
    assert_eq!(r.target, "https://127.0.0.1:8384/");
    assert!(route(&facets, &vec![], "bare", "", None).is_none());
    assert!(route(&facets, &vec![], "nobody", "", None).is_none());
    assert!(no_port("bare").contains("bare"));
    assert!(not_answering("app", 8384).contains("8384"));
    assert_eq!(prefix("app"), "/facet/app");
}

#[test]
fn an_app_that_wants_tls_is_asked_again() {
    let tls = on_answer(false, true, Some("https://127.0.0.1:8384/"), "/facet/app", 8384, "x", Some("q=1"));
    assert!(matches!(tls, Answer::Again { here } if here == "/facet/app/x?q=1"));
    let moved = on_answer(false, true, Some("/login"), "/facet/app", 8384, "x", None);
    assert!(matches!(moved, Answer::Pass { location: Some(l) } if l == "/facet/app/login"));
    let plain = on_answer(false, false, None, "/facet/app", 8384, "x", None);
    assert!(matches!(plain, Answer::Pass { location: None }));
}

#[test]
fn kinds_of_traffic_are_told_by_their_headers() {
    assert!(is_websocket("websocket") && is_websocket("WebSocket"));
    assert!(!is_websocket("h2c"));
    assert!(is_html("text/html; charset=utf-8"));
    assert!(!is_html("application/json"));
}

#[test]
fn a_base_is_injected_once() {
    let once = inject_into("<html><head></head></html>", "/facet/app").unwrap();
    assert!(inject_into(&once, "/facet/app").is_none());
}

#[test]
fn a_page_that_is_not_quite_text_is_still_given_its_base() {
    let out = inject_base(b"<head>\xff</head>", "/facet/app");
    assert_eq!(String::from_utf8(out).unwrap(), "<head><base href=\"/facet/app/\">\u{fffd}</head>");
}

#[test]
fn a_redirect_to_a_longer_name_is_not_under_the_prefix() {
    let moved = |v: &str| rewrite_location(v, "/facet/app", 8384);
    assert_eq!(moved("/facet/apple"), Some("/facet/app/facet/apple".to_string()));
    assert_eq!(moved("/facet/app"), None);
    assert_eq!(moved("/facet/app/x"), None);
    assert_eq!(moved("/facet/app?x"), None);
    assert_eq!(moved("/facet/app#x"), None);
    assert_eq!(moved(&moved("/facet/apple").unwrap()), None);
}

#[test]
fn a_cookie_path_of_a_longer_name_is_moved_under_the_prefix() {
    let scoped = |p: &str| rewrite_cookie(&format!("a=b; Path={p}"), "/facet/app");
    assert_eq!(scoped("/facet/apple"), "a=b; Path=/facet/app/facet/apple");
    assert_eq!(scoped("/facet/app"), "a=b; Path=/facet/app");
    assert_eq!(scoped("/facet/app/x"), "a=b; Path=/facet/app/x");
}

#[test]
fn a_header_is_no_head() {
    let page = "<html><body><header>hi</header></body></html>";
    assert_eq!(inject_base(page.as_bytes(), "/facet/app"), page.as_bytes());
    assert_eq!(
        inject_into("<header></header><HEAD lang=x>y", "/facet/app").as_deref(),
        Some("<header></header><HEAD lang=x><base href=\"/facet/app/\">y")
    );
    assert_eq!(
        inject_into("<head\n>y", "/facet/app").as_deref(),
        Some("<head\n><base href=\"/facet/app/\">y")
    );
    assert_eq!(inject_into("<head", "/facet/app"), None);
}
