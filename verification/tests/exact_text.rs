use prism::config::BindMode;
use prism::enrol::{already_enrolled, banner_head, banner_tail};
use prism::rescue::{esc, page, truncate, DiskFree, FacetRow, Live, ProcessRow, Shown, HEAD};
use prism::setup::{detect, report, Found};
use prism::supervisor::FacetStatus;

fn gib(mib: u64) -> String {
    format!("{:.1} GiB", mib as f64 / 1024.0)
}

/// The page, put together from floating-point figures and formatted pieces.
fn expected(p: &Shown) -> String {
    let mut html = HEAD.to_string();
    html.push_str(&format!(
        r#"<h1>Prism — Critical Functions</h1>
<p class="sub">Minimal recovery interface. No JavaScript. Always available at <code>/rescue</code>.</p>
<p>State: <span class="tier {t}">{t}</span></p>"#,
        t = esc(&p.tier)
    ));
    html.push_str(r#"<div class="grid">"#);
    html.push_str(&format!(
        r#"<div class="stat"><div class="k">Honest headroom</div><div class="v">{}</div></div>"#,
        gib(p.honest_mib)
    ));
    html.push_str(&format!(
        r#"<div class="stat"><div class="k">Phantom</div><div class="v">{}</div></div>"#,
        gib(p.phantom_mib)
    ));
    html.push_str(&format!(
        r#"<div class="stat"><div class="k">Memory stall</div><div class="v">{:.1}%</div></div>"#,
        p.stall_full as f64 / 1e9 * 100.0
    ));
    if let Some(d) = &p.disk {
        html.push_str(&format!(
            r#"<div class="stat"><div class="k">Disk free — {}</div><div class="v">{}</div></div>"#,
            esc(&d.path),
            gib(d.free_mib)
        ));
    }
    html.push_str("</div>");
    if !p.facets.is_empty() {
        html.push_str("<h2>Facets</h2><table><tr><th>Facet</th><th>State</th><th class=\"n\">Memory</th><th></th></tr>");
        for f in &p.facets {
            html.push_str(&format!(
                r#"<tr><td>{}</td><td>{}</td><td class="n">{}</td><td>
<form method="post" action="/rescue/facet/stop"><input type="hidden" name="id" value="{}">
<button type="submit">Stop</button></form></td></tr>"#,
                esc(&f.name),
                esc(&format!("{:?}", f.status)),
                f.memory_kb.map(|kb| gib(kb / 1024)).unwrap_or_else(|| "—".to_string()),
                esc(&f.id)
            ));
        }
        html.push_str("</table>");
    }
    html.push_str("<h2>Largest processes</h2><table><tr><th class=\"n\">PID</th><th>Name</th><th class=\"n\">RSS</th><th></th></tr>");
    for r in &p.processes {
        let action = match &r.refusal {
            None => format!(
                r#"<form method="post" action="/rescue/kill"><input type="hidden" name="pid" value="{}">
<button type="submit">Kill</button></form>"#,
                r.pid
            ),
            Some(why) => format!(r#"<span class="cmd" title="{}">protected</span>"#, esc(why)),
        };
        html.push_str(&format!(
            r#"<tr><td class="n">{}</td><td>{}<br><span class="cmd">{}</span></td><td class="n">{}</td><td>{}</td></tr>"#,
            r.pid,
            esc(&r.comm),
            esc(&truncate(&r.cmdline, 90)),
            gib(r.rss_kb / 1024),
            action
        ));
    }
    html.push_str("</table>");
    html.push_str("<h2>Remedies</h2>");
    html.push_str(
        r#"<form method="post" action="/rescue/remedy">
<input type="hidden" name="action" value="restart_shell">
<button type="submit">Restart desktop shell (quickshell)</button></form>"#,
    );
    if let Some(l) = &p.live {
        html.push_str(&format!(
            r#"<p class="note">Read live at request time: {} available, {} honest headroom{}.
Cached figures above come from the monitor thread; if they disagree with these, the monitor has stopped.</p>"#,
            gib(l.available_kb / 1024),
            gib(l.honest_kb / 1024),
            l.disk.as_ref().map(|d| format!(", {} free on {}", gib(d.free_mib), esc(&d.path))).unwrap_or_default()
        ));
    }
    html.push_str("</body></html>");
    html
}

fn full() -> Shown {
    Shown {
        tier: "amber".to_string(),
        honest_mib: 1331,
        phantom_mib: 27,
        stall_full: 123_456_789,
        disk: Some(DiskFree { path: "/home/a&b".to_string(), free_mib: 20_481 }),
        facets: vec![
            FacetRow {
                id: "a".to_string(),
                name: "A \"one\"".to_string(),
                status: FacetStatus::Failed("unit <b> \"failed\"\n".to_string()),
                memory_kb: None,
            },
            FacetRow {
                id: "b".to_string(),
                name: "B".to_string(),
                status: FacetStatus::Stopped,
                memory_kb: Some(5_000_000),
            },
        ],
        processes: vec![
            ProcessRow {
                pid: 4242,
                comm: "python".to_string(),
                cmdline: "x".repeat(200),
                rss_kb: 7_654_321,
                refusal: None,
            },
            ProcessRow {
                pid: 1,
                comm: "systemd".to_string(),
                cmdline: "/sbin/init".to_string(),
                rss_kb: 12_000,
                refusal: Some("`systemd` is protected".to_string()),
            },
        ],
        live: Some(Live {
            available_kb: 1_234_567,
            honest_kb: 2_345_678,
            disk: Some(DiskFree { path: "/".to_string(), free_mib: 1 }),
        }),
    }
}

#[test]
fn the_whole_page_is_as_it_is_meant_to_be() {
    let (got, want) = (page(&full()), expected(&full()));
    let same = got.chars().zip(want.chars()).take_while(|(a, b)| a == b).count();
    let near = |t: &str| t.chars().skip(same.saturating_sub(40)).take(120).collect::<String>();
    assert_eq!(near(&got), near(&want), "the pages part at character {same}");
    assert_eq!(got, want);
    let bare = Shown { disk: None, facets: vec![], processes: vec![], live: None, ..full() };
    assert_eq!(page(&bare), expected(&bare));
}

fn some() -> Found {
    Found {
        comfy_easy_output: false,
        comfy_output: true,
        a1111_output: false,
        downloads: true,
        documents: false,
        comfy_easy_script: true,
        comfy_main: false,
        llama_build: true,
        llama_build_new: false,
        llama_system: false,
        ollama: false,
    }
}

#[test]
fn a_detection_is_reported_in_columns() {
    let d = detect("/home/ada", &some(), false, Some("engine\n"));
    assert_eq!(d.host.server.bind, BindMode::Localhost);
    let mut lines = vec![
        "  bind        localhost (Tailscale not detected)".to_string(),
        "  file roots".to_string(),
    ];
    for r in &d.host.files.roots {
        lines.push(format!("    {:<14} {}{}", r.name, r.path, if r.writable { "" } else { "  (read-only)" }));
    }
    lines.push("  workloads".to_string());
    for f in &d.profile.facet {
        lines.push(format!("    {:<14} {}{}", f.name, f.command[0], if f.pty { "  (interactive)" } else { "" }));
    }
    assert_eq!(report(&d), lines);
    let ids: Vec<&str> = d.profile.facet.iter().map(|f| f.id.as_str()).collect();
    assert_eq!(ids, vec!["comfyui", "llama"]);
    assert!(d.profile.facet[0].pty);
}

#[test]
fn an_enrolment_is_announced_line_by_line() {
    assert_eq!(
        banner_head(true),
        vec![
            "",
            "──────────────────── PRISM ENROLMENT ────────────────────",
            "The previous secret has been revoked. Any device still",
            "holding it can no longer sign in.",
            "",
            "Scan this with Google or Microsoft Authenticator:",
            "",
        ]
    );
    assert_eq!(banner_head(false).len(), 4);
    assert_eq!(
        banner_tail(b"12345678901234567890", "/s/totp.secret", false),
        vec![
            "  (install `qrencode` to display a scannable code)",
            "",
            "  secret : GEZDGNBVGY3TQOJQGEZDGNBVGY3TQOJQ",
            "  type   : time-based, 6 digits, 30 seconds",
            "",
            "Stored at /s/totp.secret",
            "Re-run `prismd enrol --reset` to revoke and replace it.",
            "─────────────────────────────────────────────────────────",
            "",
        ]
    );
    assert_eq!(banner_tail(b"12345678901234567890", "/s/totp.secret", true).len(), 7);
    assert_eq!(
        already_enrolled("/s/totp.secret"),
        vec![
            "",
            "An authenticator secret is already enrolled at",
            "  /s/totp.secret",
            "",
            "It is not displayed again by design: a second factor that can",
            "be re-read on request is not a second factor.",
            "",
            "If the device holding it is lost, revoke and replace it with:",
            "  prismd enrol --reset",
            "",
        ]
    );
}
