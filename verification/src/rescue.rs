//! Critical Functions Mode.
//!
//! A single self-contained HTML page with **no JavaScript, no fetches, no
//! external assets**, served unconditionally at `/rescue` regardless of tier.
//!
//! Three properties are load-bearing and should not be traded away:
//!
//! * **No shared code path with the rich shell.** A shell that fails to load
//!   must not be able to take this page with it.
//! * **No tier gate.** Automatic de-escalation is a convenience; the failure
//!   that cannot be anticipated is the one where the *detector* is wrong. This
//!   page is reachable when Prism believes everything is fine, because Prism's
//!   belief is exactly what is in question.
//! * **No JavaScript.** It has to render on a browser that is itself starved,
//!   on an old phone, on a bad connection — and in a text browser over SSH.
//!
//! Every control is a form `POST`. The session cookie is `SameSite=Strict`,
//! which is what makes these forms safe from cross-site submission without any
//! token plumbing.

use crate::api;
use crate::auth;
use crate::auth::{Authenticator, CodeOutcome, Sensitivity};
use crate::figures;
use crate::supervisor::{FacetStatus, StatusView};
use crate::text;
use vstd::prelude::*;

verus! {

/// Session tier.
///
/// Demanding a fresh authenticator code from someone whose machine is dying is
/// hostile, and the page is already tailnet-bound. Session is the balance: an
/// arbitrary device on the tailnet cannot kill processes, but the operator's
/// phone — already signed in — just works.
pub fn tier() -> (r: Sensitivity)
    ensures
        r == Sensitivity::Session,
{
    Sensitivity::Session
}

/// Shared page chrome. Kept apart from the shell's on purpose: this page must
/// not break when the shell does.
pub const HEAD: &'static str = r#"<!doctype html><html lang="en"><head><meta charset="utf-8">
<meta name="viewport" content="width=device-width,initial-scale=1">
<title>Prism — Critical Functions</title>
<style>
:root{color-scheme:dark light}
body{margin:0;padding:1.25rem;font:15px/1.5 ui-monospace,SFMono-Regular,Menlo,monospace;
background:#0b0d10;color:#dfe4ea;max-width:60rem}
h1{font-size:1.1rem;margin:0 0 .25rem;letter-spacing:.08em;text-transform:uppercase}
h2{font-size:.85rem;margin:1.75rem 0 .5rem;letter-spacing:.1em;text-transform:uppercase;color:#8b95a3}
.sub{color:#8b95a3;margin:0 0 1.25rem;font-size:.85rem}
table{border-collapse:collapse;width:100%;font-size:.85rem}
td,th{text-align:left;padding:.35rem .5rem;border-bottom:1px solid #1d222b}
th{color:#8b95a3;font-weight:400}
td.n{text-align:right;font-variant-numeric:tabular-nums}
.cmd{color:#8b95a3;overflow-wrap:anywhere}
.tier{display:inline-block;padding:.15rem .6rem;border-radius:.2rem;font-weight:600}
.green{background:#12301c;color:#6ee7a0}
.amber{background:#3a2c0c;color:#f0c05a}
.red{background:#3d1414;color:#ff8a8a}
.black{background:#450a0a;color:#fff;outline:1px solid #ff5a5a}
button{font:inherit;font-size:.8rem;padding:.2rem .6rem;border:1px solid #3a4250;
background:#171b22;color:#dfe4ea;border-radius:.2rem;cursor:pointer}
button:hover{background:#222831;border-color:#5a6475}
input{font:inherit;padding:.4rem .6rem;background:#12151a;color:#dfe4ea;
border:1px solid #3a4250;border-radius:.2rem;letter-spacing:.3em;width:8em}
.grid{display:grid;grid-template-columns:repeat(auto-fit,minmax(11rem,1fr));gap:.75rem;margin:1rem 0}
.stat{background:#12151a;border:1px solid #1d222b;border-radius:.3rem;padding:.6rem .75rem}
.stat .k{color:#8b95a3;font-size:.7rem;letter-spacing:.08em;text-transform:uppercase}
.stat .v{font-size:1.25rem;font-variant-numeric:tabular-nums;margin-top:.15rem}
.note{color:#8b95a3;font-size:.8rem;margin-top:2rem;border-top:1px solid #1d222b;padding-top:.75rem}
form{display:inline}
</style></head><body>"#;

// ---------------------------------------------------------------------------
// Text
// ---------------------------------------------------------------------------

/// What stands in the page for a character.
pub open spec fn escaped_char(c: char) -> Seq<char> {
    if c == '&' {
        "&amp;"@
    } else if c == '<' {
        "&lt;"@
    } else if c == '>' {
        "&gt;"@
    } else if c == '"' {
        "&quot;"@
    } else if c == '\'' {
        "&#39;"@
    } else {
        seq![c]
    }
}

/// What stands in the page for a text.
pub open spec fn escaped(s: Seq<char>) -> Seq<char>
    decreases s.len(),
{
    if s.len() == 0 {
        seq![]
    } else {
        escaped(s.drop_last()) + escaped_char(s.last())
    }
}

/// Minimal escaping for anything interpolated into the page.
///
/// Process command lines are attacker-influenceable — any user on the machine
/// can create a process named `<script>` — so nothing reaches the document
/// without passing through here.
pub fn esc(s: &str) -> (r: String)
    ensures
        r@ == escaped(s@),
{
    let v = text::chars_of(s);
    let mut out = String::new();
    let mut i: usize = 0;
    while i < v.len()
        invariant
            i <= v.len(),
            out@ == escaped(v@.take(i as int)),
        decreases v.len() - i,
    {
        let c = v[i];
        let ghost before = out@;
        let ghost t = v@.take(i + 1);
        assert(t.drop_last() =~= v@.take(i as int));
        assert(t.last() == c);
        if c == '&' {
            out.append("&amp;");
        } else if c == '<' {
            out.append("&lt;");
        } else if c == '>' {
            out.append("&gt;");
        } else if c == '"' {
            out.append("&quot;");
        } else if c == '\'' {
            out.append("&#39;");
        } else {
            out.push(c);
        }
        assert(out@ =~= before + escaped_char(c));
        i += 1;
    }
    assert(v@.take(i as int) =~= v@);
    out
}

/// At most `max` characters of a text, and a mark where there were more.
pub open spec fn truncated(s: Seq<char>, max: nat) -> Seq<char> {
    if s.len() <= max {
        s
    } else {
        s.take(max as int).push('…')
    }
}

/// At most `max` characters of a text, and a mark where there were more.
pub fn truncate(s: &str, max: usize) -> (r: String)
    ensures
        r@ == truncated(s@, max as nat),
{
    let v = text::chars_of(s);
    if v.len() <= max {
        return s.to_string();
    }
    let mut out = text::string_from(v.as_slice(), 0, max);
    assert(out@ =~= s@.take(max as int));
    out.push('…');
    out
}

/// Mebibytes as gibibytes.
pub fn gib(mib: u64) -> (r: String)
    ensures
        r@ == figures::gib_text(mib as nat),
{
    figures::gib(mib)
}

// ---------------------------------------------------------------------------
// Signing in
// ---------------------------------------------------------------------------

/// The zero-JS sign-in form.
pub open spec fn login_form(message: Option<&str>) -> Seq<char> {
    HEAD@ + LOGIN_TOP@ + (match message {
        Some(m) => "<p class=\"tier red\">"@ + escaped(m@) + "</p>"@,
        None => seq![],
    }) + LOGIN_FORM@
}

pub const LOGIN_TOP: &'static str = r#"<h1>Prism — Critical Functions</h1>
<p class="sub">Enter the current code from your authenticator.</p>"#;

pub const LOGIN_FORM: &'static str = r#"<form method="post" action="/rescue/login">
<input type="text" name="code" inputmode="numeric" pattern="[0-9]*" maxlength="6"
 autocomplete="one-time-code" autofocus placeholder="000000">
<button type="submit">Sign in</button></form>
<p class="note">This page needs no JavaScript and works in a text browser.</p>
</body></html>"#;

/// The zero-JS sign-in form.
///
/// Rescue carries its own login rather than reusing the API's JSON endpoint, so
/// that reaching a recoverable machine never depends on the rich shell's bundle,
/// its router, or JavaScript being available at all.
pub fn login_page(message: Option<&str>) -> (r: String)
    ensures
        r@ == login_form(message),
{
    let mut html = HEAD.to_string();
    html.append(LOGIN_TOP);
    let ghost top = html@;
    match message {
        Some(m) => {
            html.append("<p class=\"tier red\">");
            html.append(esc(m).as_str());
            html.append("</p>");
            assert(html@ =~= top + ("<p class=\"tier red\">"@ + escaped(m@) + "</p>"@));
        },
        None => {
            assert(html@ =~= top + Seq::<char>::empty());
        },
    }
    html.append(LOGIN_FORM);
    html
}

/// What signing in on this page answers.
#[derive(Debug)]
pub enum Entrance {
    /// Signed in: a cookie, and on to the page.
    Admitted { cookie: String },
    /// Not signed in: the form again, saying why.
    Asked { page: String },
}

pub enum EntranceView {
    Admitted { cookie: Seq<char> },
    Asked { page: Seq<char> },
}

impl View for Entrance {
    type V = EntranceView;

    open spec fn view(&self) -> EntranceView {
        match *self {
            Entrance::Admitted { cookie } => EntranceView::Admitted { cookie: cookie@ },
            Entrance::Asked { page } => EntranceView::Asked { page: page@ },
        }
    }
}

/// The form, with a message of the library.
pub open spec fn form_saying(message: Seq<char>) -> Seq<char> {
    HEAD@ + LOGIN_TOP@ + ("<p class=\"tier red\">"@ + escaped(message) + "</p>"@) + LOGIN_FORM@
}

/// What is answered to a code, given what came of it.
pub open spec fn entrance(outcome: CodeOutcome, session: Option<Seq<char>>, ttl: u64) -> EntranceView {
    match (outcome, session) {
        (CodeOutcome::Accepted, Some(token)) => EntranceView::Admitted {
            cookie: api::cookie_line(api::SESSION_COOKIE@, token, ttl),
        },
        (CodeOutcome::Replayed, _) => EntranceView::Asked {
            page: form_saying("that code has already been used — wait for the next one"@),
        },
        (CodeOutcome::LockedOut { retry_after_secs }, _) => EntranceView::Asked {
            page: form_saying(api::too_many(retry_after_secs)),
        },
        _ => EntranceView::Asked { page: form_saying("incorrect code"@) },
    }
}

/// What is answered to a code, given what came of it.
pub fn entrance_for(outcome: CodeOutcome, session: Option<String>, ttl: u64) -> (r: Entrance)
    ensures
        r@ == entrance(outcome, text::opt(session), ttl),
{
    match (outcome, session) {
        (CodeOutcome::Accepted, Some(token)) => Entrance::Admitted {
            cookie: api::session_cookie(token.as_str(), ttl),
        },
        (CodeOutcome::Replayed, _) => Entrance::Asked {
            page: login_page(Some("that code has already been used — wait for the next one")),
        },
        (CodeOutcome::LockedOut { retry_after_secs }, _) => {
            let why = api::too_many_attempts(retry_after_secs);
            Entrance::Asked { page: login_page(Some(why.as_str())) }
        },
        _ => Entrance::Asked { page: login_page(Some("incorrect code")) },
    }
}

/// Sign in with a code.
pub fn login(auth: &mut Authenticator, code: &str, now: u64) -> (r: Entrance)
    requires
        old(auth).wf(),
        auth::tells_time(old(auth).rules(), now),
    ensures
        final(auth).wf(),
        final(auth).same_setup(old(auth)),
        ({
            let step = auth::code_step(
                old(auth).rules(),
                old(auth)@,
                auth::looked_at(old(auth).secret(), code@, old(auth).rules(), now),
                now,
            );
            &&& final(auth)@ == step.0
            &&& r@ == entrance(
                step.1,
                if step.1 == CodeOutcome::Accepted {
                    Some(auth::session_token(old(auth).key(), old(auth).rules(), now))
                } else {
                    None
                },
                old(auth).rules().session_ttl_secs,
            )
        }),
{
    let ttl: u64 = auth.policy().session_ttl_secs;
    let (outcome, session, _device) = auth.submit_code(code, now);
    entrance_for(outcome, session, ttl)
}

// ---------------------------------------------------------------------------
// The page
// ---------------------------------------------------------------------------

/// A facet on the page.
#[derive(Debug)]
pub struct FacetRow {
    pub id: String,
    pub name: String,
    pub status: FacetStatus,
    pub memory_kb: Option<u64>,
}

/// A process on the page.
#[derive(Debug)]
pub struct ProcessRow {
    pub pid: u32,
    pub comm: String,
    pub cmdline: String,
    pub rss_kb: u64,
    /// Why Prism would not signal it, where it would not. A process that will
    /// not be killed is shown as protected rather than offered as a button that
    /// silently does nothing.
    pub refusal: Option<String>,
}

/// A filesystem on the page.
#[derive(Debug)]
pub struct DiskFree {
    pub path: String,
    pub free_mib: u64,
}

/// Figures read at the time of the request. If the monitor has died, what it
/// last published goes stale silently; these still tell the truth.
#[derive(Debug)]
pub struct Live {
    pub available_kb: u64,
    pub honest_kb: u64,
    pub disk: Option<DiskFree>,
}

/// All that the page shows.
#[derive(Debug)]
pub struct Shown {
    pub tier: String,
    pub honest_mib: u64,
    pub phantom_mib: u64,
    /// In parts per billion.
    pub stall_full: u64,
    pub disk: Option<DiskFree>,
    pub facets: Vec<FacetRow>,
    pub processes: Vec<ProcessRow>,
    pub live: Option<Live>,
}

/// A figure under its name.
pub open spec fn stat(name: Seq<char>, value: Seq<char>) -> Seq<char> {
    "<div class=\"stat\"><div class=\"k\">"@ + name + "</div><div class=\"v\">"@ + value
        + "</div></div>"@
}

fn push_stat(out: &mut String, name: &str, value: &str)
    ensures
        final(out)@ == old(out)@ + stat(name@, value@),
{
    out.append("<div class=\"stat\"><div class=\"k\">");
    out.append(name);
    out.append("</div><div class=\"v\">");
    out.append(value);
    out.append("</div></div>");
    assert(out@ =~= old(out)@ + stat(name@, value@));
}

pub open spec fn status_shown(s: StatusView) -> Seq<char> {
    match s {
        StatusView::Running => "Running"@,
        StatusView::Stopped => "Stopped"@,
        StatusView::Foreign => "Foreign"@,
        StatusView::Failed(why) => failed(text::debugged(why)),
    }
}

/// A failure, from what `Debug` writes of its reason.
pub open spec fn failed(debugged: Seq<char>) -> Seq<char> {
    "Failed("@ + escaped(debugged) + ")"@
}

pub fn show_failed(debugged: &str) -> (r: String)
    ensures
        r@ == failed(debugged@),
{
    let mut out = "Failed(".to_string();
    out.append(esc(debugged).as_str());
    out.append(")");
    out
}

fn show_status(s: &FacetStatus) -> (r: String)
    ensures
        r@ == status_shown(s@),
{
    match s {
        FacetStatus::Running => "Running".to_string(),
        FacetStatus::Stopped => "Stopped".to_string(),
        FacetStatus::Foreign => "Foreign".to_string(),
        FacetStatus::Failed(why) => show_failed(text::debug_form(why.as_str()).as_str()),
    }
}

pub open spec fn facet_row(f: FacetRow) -> Seq<char> {
    "<tr><td>"@ + escaped(f.name@) + "</td><td>"@ + status_shown(f.status@)
        + "</td><td class=\"n\">"@ + (match f.memory_kb {
        Some(kb) => figures::gib_text(kb as nat / 1024),
        None => "—"@,
    }) + STOP_FORM@ + escaped(f.id@) + STOP_BUTTON@
}

pub const STOP_FORM: &'static str = r#"</td><td>
<form method="post" action="/rescue/facet/stop"><input type="hidden" name="id" value=""#;

pub const STOP_BUTTON: &'static str = r#"">
<button type="submit">Stop</button></form></td></tr>"#;

fn push_facet(out: &mut String, f: &FacetRow)
    ensures
        final(out)@ == old(out)@ + facet_row(*f),
{
    out.append("<tr><td>");
    out.append(esc(f.name.as_str()).as_str());
    out.append("</td><td>");
    out.append(show_status(&f.status).as_str());
    out.append("</td><td class=\"n\">");
    match f.memory_kb {
        Some(kb) => {
            out.append(gib(kb / 1024).as_str());
        },
        None => {
            out.append("—");
        },
    }
    out.append(STOP_FORM);
    out.append(esc(f.id.as_str()).as_str());
    out.append(STOP_BUTTON);
    assert(out@ =~= old(out)@ + facet_row(*f));
}

/// The first `n` facets.
pub open spec fn facet_rows(v: Seq<FacetRow>, n: int) -> Seq<char>
    decreases n,
{
    if n <= 0 {
        seq![]
    } else {
        facet_rows(v, n - 1) + facet_row(v[n - 1])
    }
}

/// The facets; nothing where there are none.
pub open spec fn facet_table(v: Seq<FacetRow>) -> Seq<char> {
    if v.len() == 0 {
        seq![]
    } else {
        FACETS_TOP@ + facet_rows(v, v.len() as int) + "</table>"@
    }
}

pub const FACETS_TOP: &'static str = "<h2>Facets</h2><table><tr><th>Facet</th><th>State</th><th class=\"n\">Memory</th><th></th></tr>";

fn push_facets(out: &mut String, v: &Vec<FacetRow>)
    ensures
        final(out)@ == old(out)@ + facet_table(v@),
{
    if v.len() == 0 {
        assert(out@ =~= old(out)@ + facet_table(v@));
        return;
    }
    out.append(FACETS_TOP);
    let ghost top = out@;
    let mut i: usize = 0;
    assert(out@ =~= top + facet_rows(v@, 0));
    while i < v.len()
        invariant
            i <= v.len(),
            out@ == top + facet_rows(v@, i as int),
        decreases v.len() - i,
    {
        let ghost before = out@;
        push_facet(out, &v[i]);
        i += 1;
        assert(out@ =~= top + facet_rows(v@, i as int));
    }
    out.append("</table>");
    assert(out@ =~= old(out)@ + facet_table(v@));
}

/// What may be done about a process: kill it, or nothing, and why.
pub open spec fn action_for(pid: u32, refusal: Option<String>) -> Seq<char> {
    match refusal {
        None => KILL_FORM@ + text::dec(pid as nat) + KILL_BUTTON@,
        Some(why) => "<span class=\"cmd\" title=\""@ + escaped(why@) + "\">protected</span>"@,
    }
}

pub const KILL_FORM: &'static str = r#"<form method="post" action="/rescue/kill"><input type="hidden" name="pid" value=""#;

pub const KILL_BUTTON: &'static str = r#"">
<button type="submit">Kill</button></form>"#;

pub open spec fn process_row(p: ProcessRow) -> Seq<char> {
    "<tr><td class=\"n\">"@ + text::dec(p.pid as nat) + "</td><td>"@ + escaped(p.comm@)
        + "<br><span class=\"cmd\">"@ + escaped(truncated(p.cmdline@, 90))
        + "</span></td><td class=\"n\">"@ + figures::gib_text(p.rss_kb as nat / 1024)
        + "</td><td>"@ + action_for(p.pid, p.refusal) + "</td></tr>"@
}

fn push_process(out: &mut String, p: &ProcessRow)
    ensures
        final(out)@ == old(out)@ + process_row(*p),
{
    out.append("<tr><td class=\"n\">");
    text::push_dec(out, p.pid as u64);
    out.append("</td><td>");
    out.append(esc(p.comm.as_str()).as_str());
    out.append("<br><span class=\"cmd\">");
    out.append(esc(truncate(p.cmdline.as_str(), 90).as_str()).as_str());
    out.append("</span></td><td class=\"n\">");
    out.append(gib(p.rss_kb / 1024).as_str());
    out.append("</td><td>");
    let ghost before = out@;
    match &p.refusal {
        None => {
            out.append(KILL_FORM);
            text::push_dec(out, p.pid as u64);
            out.append(KILL_BUTTON);
        },
        Some(why) => {
            out.append("<span class=\"cmd\" title=\"");
            out.append(esc(why.as_str()).as_str());
            out.append("\">protected</span>");
        },
    }
    assert(out@ =~= before + action_for(p.pid, p.refusal));
    out.append("</td></tr>");
    assert(out@ =~= old(out)@ + process_row(*p));
}

/// The first `n` processes.
pub open spec fn process_rows(v: Seq<ProcessRow>, n: int) -> Seq<char>
    decreases n,
{
    if n <= 0 {
        seq![]
    } else {
        process_rows(v, n - 1) + process_row(v[n - 1])
    }
}

pub open spec fn process_table(v: Seq<ProcessRow>) -> Seq<char> {
    PROCESSES_TOP@ + process_rows(v, v.len() as int) + "</table>"@
}

pub const PROCESSES_TOP: &'static str = "<h2>Largest processes</h2><table><tr><th class=\"n\">PID</th><th>Name</th><th class=\"n\">RSS</th><th></th></tr>";

fn push_processes(out: &mut String, v: &Vec<ProcessRow>)
    ensures
        final(out)@ == old(out)@ + process_table(v@),
{
    out.append(PROCESSES_TOP);
    let ghost top = out@;
    let mut i: usize = 0;
    assert(out@ =~= top + process_rows(v@, 0));
    while i < v.len()
        invariant
            i <= v.len(),
            out@ == top + process_rows(v@, i as int),
        decreases v.len() - i,
    {
        push_process(out, &v[i]);
        i += 1;
        assert(out@ =~= top + process_rows(v@, i as int));
    }
    out.append("</table>");
    assert(out@ =~= old(out)@ + process_table(v@));
}

pub open spec fn live_note(live: Option<Live>) -> Seq<char> {
    match live {
        Some(l) => "<p class=\"note\">Read live at request time: "@ + figures::gib_text(
            l.available_kb as nat / 1024,
        ) + " available, "@ + figures::gib_text(l.honest_kb as nat / 1024) + " honest headroom"@ + (
        match l.disk {
            Some(d) => ", "@ + figures::gib_text(d.free_mib as nat) + " free on "@ + escaped(
                d.path@,
            ),
            None => seq![],
        }) + LIVE_END@,
        None => seq![],
    }
}

pub const LIVE_END: &'static str = r#".
Cached figures above come from the monitor thread; if they disagree with these, the monitor has stopped.</p>"#;

fn push_live(out: &mut String, live: &Option<Live>)
    ensures
        final(out)@ == old(out)@ + live_note(*live),
{
    match live {
        Some(l) => {
            out.append("<p class=\"note\">Read live at request time: ");
            out.append(gib(l.available_kb / 1024).as_str());
            out.append(" available, ");
            out.append(gib(l.honest_kb / 1024).as_str());
            out.append(" honest headroom");
            match &l.disk {
                Some(d) => {
                    out.append(", ");
                    out.append(gib(d.free_mib).as_str());
                    out.append(" free on ");
                    out.append(esc(d.path.as_str()).as_str());
                },
                None => {},
            }
            out.append(LIVE_END);
            assert(out@ =~= old(out)@ + live_note(*live));
        },
        None => {
            assert(out@ =~= old(out)@ + live_note(*live));
        },
    }
}

pub const PAGE_TOP: &'static str = r#"<h1>Prism — Critical Functions</h1>
<p class="sub">Minimal recovery interface. No JavaScript. Always available at <code>/rescue</code>.</p>
<p>State: <span class="tier "#;

pub const REMEDIES: &'static str = r#"<h2>Remedies</h2><form method="post" action="/rescue/remedy">
<input type="hidden" name="action" value="restart_shell">
<button type="submit">Restart desktop shell (quickshell)</button></form>"#;

/// The figures that the monitor published last.
pub open spec fn figures_shown(p: Shown) -> Seq<char> {
    "<div class=\"grid\">"@ + stat("Honest headroom"@, figures::gib_text(p.honest_mib as nat))
        + stat("Phantom"@, figures::gib_text(p.phantom_mib as nat)) + stat(
        "Memory stall"@,
        figures::one_decimal(p.stall_full as nat, 10_000_000) + "%"@,
    ) + (match p.disk {
        Some(d) => stat(
            "Disk free — "@ + escaped(d.path@),
            figures::gib_text(d.free_mib as nat),
        ),
        None => seq![],
    }) + "</div>"@
}

fn push_figures(out: &mut String, p: &Shown)
    ensures
        final(out)@ == old(out)@ + figures_shown(*p),
{
    out.append("<div class=\"grid\">");
    push_stat(out, "Honest headroom", gib(p.honest_mib).as_str());
    push_stat(out, "Phantom", gib(p.phantom_mib).as_str());
    let mut stall = figures::with_one_decimal(p.stall_full, 10_000_000);
    stall.append("%");
    push_stat(out, "Memory stall", stall.as_str());
    let ghost before = out@;
    match &p.disk {
        Some(d) => {
            let mut name = "Disk free — ".to_string();
            name.append(esc(d.path.as_str()).as_str());
            push_stat(out, name.as_str(), gib(d.free_mib).as_str());
        },
        None => {
            assert(out@ =~= before + Seq::<char>::empty());
        },
    }
    out.append("</div>");
    assert(out@ =~= old(out)@ + figures_shown(*p));
}

/// The whole page.
pub open spec fn page_text(p: Shown) -> Seq<char> {
    HEAD@ + PAGE_TOP@ + escaped(p.tier@) + "\">"@ + escaped(p.tier@) + "</span></p>"@
        + figures_shown(p) + facet_table(p.facets@) + process_table(p.processes@) + REMEDIES@
        + live_note(p.live) + "</body></html>"@
}

/// The whole page.
pub fn page(p: &Shown) -> (r: String)
    ensures
        r@ == page_text(*p),
{
    let mut html = HEAD.to_string();
    html.append(PAGE_TOP);
    let t = esc(p.tier.as_str());
    html.append(t.as_str());
    html.append("\">");
    html.append(t.as_str());
    html.append("</span></p>");
    push_figures(&mut html, p);
    push_facets(&mut html, &p.facets);
    push_processes(&mut html, &p.processes);
    html.append(REMEDIES);
    push_live(&mut html, &p.live);
    html.append("</body></html>");
    html
}

// ---------------------------------------------------------------------------
// Remedies
// ---------------------------------------------------------------------------

/// What a remedy runs: the desktop shell is restarted through the compositor,
/// so that the replacement is session-owned rather than dying with whatever
/// spawned it.
pub open spec fn remedy_words(action: Seq<char>) -> Option<Seq<Seq<char>>> {
    if action == "restart_shell"@ {
        Some(
            seq![
                "hyprctl"@,
                "dispatch"@,
                "exec"@,
                "killall ydotool qs quickshell; qs -c ii"@,
            ],
        )
    } else {
        None
    }
}

/// What a remedy runs, where there is such a remedy.
pub fn remedy(action: &str) -> (r: Option<Vec<String>>)
    ensures
        match r {
            Some(v) => remedy_words(action@) == Some(text::strs(v@)),
            None => remedy_words(action@) is None,
        },
{
    if !text::same(action, "restart_shell") {
        return None;
    }
    let mut argv: Vec<String> = Vec::new();
    argv.push("hyprctl".to_string());
    argv.push("dispatch".to_string());
    argv.push("exec".to_string());
    argv.push("killall ydotool qs quickshell; qs -c ii".to_string());
    assert(text::strs(argv@) =~= remedy_words(action@)->0);
    Some(argv)
}

// ---------------------------------------------------------------------------
// Laws
// ---------------------------------------------------------------------------

/// Characters that could open or close anything in the page.
pub open spec fn is_markup(c: char) -> bool {
    c == '<' || c == '>' || c == '"' || c == '\''
}

/// Nothing that is interpolated can become markup, whatever it is named.
pub proof fn escaped_text_is_inert(s: Seq<char>, i: int)
    requires
        0 <= i < escaped(s).len(),
    ensures
        !is_markup(escaped(s)[i]),
    decreases s.len(),
{
    if s.len() > 0 {
        let before = escaped(s.drop_last());
        if i < before.len() {
            escaped_text_is_inert(s.drop_last(), i);
        } else {
            reveal_strlit("&amp;");
            reveal_strlit("&lt;");
            reveal_strlit("&gt;");
            reveal_strlit("&quot;");
            reveal_strlit("&#39;");
            assert(escaped(s)[i] == escaped_char(s.last())[i - before.len()]);
        }
    }
}

/// Plain text is shown as it is.
pub proof fn plain_text_is_kept(s: Seq<char>)
    requires
        forall|i: int| 0 <= i < s.len() ==> !is_markup(#[trigger] s[i]) && s[i] != '&',
    ensures
        escaped(s) == s,
    decreases s.len(),
{
    if s.len() > 0 {
        assert forall|i: int| 0 <= i < s.drop_last().len() implies !is_markup(
            #[trigger] s.drop_last()[i],
        ) && s.drop_last()[i] != '&' by {
            assert(s.drop_last()[i] == s[i]);
        }
        plain_text_is_kept(s.drop_last());
        assert(!is_markup(s.last()));
        assert(escaped(s) =~= s);
    } else {
        assert(escaped(s) =~= s);
    }
}

/// A cut text is its start, and never more than one character over the limit.
pub proof fn truncation_is_bounded(s: Seq<char>, max: nat)
    ensures
        truncated(s, max).len() <= max + 1,
        s.len() <= max ==> truncated(s, max) == s,
        s.len() > max ==> truncated(s, max).take(max as int) == s.take(max as int),
{
    if s.len() > max {
        assert(truncated(s, max).take(max as int) =~= s.take(max as int));
    }
}

/// Each character is shown on its own, and the five that a page is marked up with
/// by their names.
pub proof fn a_character_is_shown_on_its_own(s: Seq<char>, c: char)
    ensures
        escaped(s.push('&')) == escaped(s) + "&amp;"@,
        escaped(s.push('<')) == escaped(s) + "&lt;"@,
        escaped(s.push('>')) == escaped(s) + "&gt;"@,
        escaped(s.push('"')) == escaped(s) + "&quot;"@,
        escaped(s.push('\'')) == escaped(s) + "&#39;"@,
        c != '&' && c != '<' && c != '>' && c != '"' && c != '\'' ==> escaped(s.push(c)) == escaped(
            s,
        ).push(c),
{
    assert(s.push('&').drop_last() =~= s);
    assert(s.push('<').drop_last() =~= s);
    assert(s.push('>').drop_last() =~= s);
    assert(s.push('"').drop_last() =~= s);
    assert(s.push('\'').drop_last() =~= s);
    assert(s.push(c).drop_last() =~= s);
}

/// A text that is cut says so at its end.
pub proof fn a_cut_text_says_so(s: Seq<char>, max: nat)
    requires
        s.len() > max,
    ensures
        truncated(s, max).len() == max + 1,
        truncated(s, max)[max as int] == '…',
{
}

/// What signing in gives: a cookie with the session's token for an accepted code,
/// and for any other the form again, which says why.
pub proof fn what_signing_in_gives(token: Seq<char>, session: Option<Seq<char>>, wait: u64, ttl: u64)
    ensures
        entrance(CodeOutcome::Accepted, Some(token), ttl) == (EntranceView::Admitted {
            cookie: api::cookie_line("prism_session"@, token, ttl),
        }),
        entrance(CodeOutcome::Rejected, session, ttl) == (EntranceView::Asked {
            page: form_saying("incorrect code"@),
        }),
        entrance(CodeOutcome::Accepted, None, ttl) == entrance(
            CodeOutcome::Rejected,
            session,
            ttl,
        ),
        entrance(CodeOutcome::Replayed, session, ttl) == (EntranceView::Asked {
            page: form_saying("that code has already been used — wait for the next one"@),
        }),
        entrance(CodeOutcome::LockedOut { retry_after_secs: wait }, session, ttl) == (
        EntranceView::Asked { page: form_saying(api::too_many(wait)) }),
{
}

/// Every facet has its row, and every process, in order; without facets there is no
/// table of them.
pub proof fn everything_has_its_row(
    facets: Seq<FacetRow>,
    f: FacetRow,
    processes: Seq<ProcessRow>,
    p: ProcessRow,
)
    ensures
        facet_rows(facets.push(f), facets.len() as int + 1) == facet_rows(
            facets,
            facets.len() as int,
        ) + facet_row(f),
        process_rows(processes.push(p), processes.len() as int + 1) == process_rows(
            processes,
            processes.len() as int,
        ) + process_row(p),
        facet_table(Seq::empty()).len() == 0,
        facet_table(facets.push(f)) == FACETS_TOP@ + facet_rows(facets, facets.len() as int)
            + facet_row(f) + "</table>"@,
        process_table(processes.push(p)) == PROCESSES_TOP@ + process_rows(
            processes,
            processes.len() as int,
        ) + process_row(p) + "</table>"@,
{
    lemma_facet_rows(facets, facets.push(f), facets.len() as int);
    lemma_process_rows(processes, processes.push(p), processes.len() as int);
    assert(FACETS_TOP@ + facet_rows(facets, facets.len() as int) + facet_row(f) =~= FACETS_TOP@ + (
    facet_rows(facets, facets.len() as int) + facet_row(f)));
    assert(PROCESSES_TOP@ + process_rows(processes, processes.len() as int) + process_row(p)
        =~= PROCESSES_TOP@ + (process_rows(processes, processes.len() as int) + process_row(p)));
}

proof fn lemma_facet_rows(a: Seq<FacetRow>, b: Seq<FacetRow>, n: int)
    requires
        0 <= n <= a.len(),
        n <= b.len(),
        forall|i: int| 0 <= i < n ==> a[i] == b[i],
    ensures
        facet_rows(a, n) == facet_rows(b, n),
    decreases n,
{
    if n > 0 {
        lemma_facet_rows(a, b, n - 1);
    }
}

proof fn lemma_process_rows(a: Seq<ProcessRow>, b: Seq<ProcessRow>, n: int)
    requires
        0 <= n <= a.len(),
        n <= b.len(),
        forall|i: int| 0 <= i < n ==> a[i] == b[i],
    ensures
        process_rows(a, n) == process_rows(b, n),
    decreases n,
{
    if n > 0 {
        lemma_process_rows(a, b, n - 1);
    }
}

/// A row shows its own process: its number, its name, its command line up to
/// ninety characters, its memory, and a way to end it unless there is a reason
/// not to, which is told instead.
pub proof fn a_row_shows_its_process(p: ProcessRow)
    ensures
        ({
            let line = if p.cmdline@.len() <= 90 {
                p.cmdline@
            } else {
                p.cmdline@.take(90).push('…')
            };
            let told = "<tr><td class=\"n\">"@ + text::dec(p.pid as nat) + "</td><td>"@ + escaped(
                p.comm@,
            ) + "<br><span class=\"cmd\">"@ + escaped(line) + "</span></td><td class=\"n\">"@
                + figures::gib_text(p.rss_kb as nat / 1024) + "</td><td>"@;
            &&& p.refusal is None ==> process_row(p) == told + (KILL_FORM@ + text::dec(
                p.pid as nat,
            ) + KILL_BUTTON@) + "</td></tr>"@
            &&& p.refusal matches Some(why) ==> process_row(p) == told + (
            "<span class=\"cmd\" title=\""@ + escaped(why@) + "\">protected</span>"@)
                + "</td></tr>"@
        }),
{
}

/// There is one remedy, and nothing else that is asked for is run.
pub proof fn there_is_one_remedy(action: Seq<char>)
    ensures
        remedy_words(action) is Some <==> action == "restart_shell"@,
        remedy_words("restart_shell"@) == Some(
            seq!["hyprctl"@, "dispatch"@, "exec"@, "killall ydotool qs quickshell; qs -c ii"@],
        ),
{
}

/// A row shows its own facet: its name, its state, its memory where that is known,
/// and a way to stop it by its id.
pub proof fn a_row_shows_its_facet(f: FacetRow)
    ensures
        ({
            let front = "<tr><td>"@ + escaped(f.name@) + "</td><td>"@ + status_shown(f.status@)
                + "</td><td class=\"n\">"@;
            let back = STOP_FORM@ + escaped(f.id@) + STOP_BUTTON@;
            &&& f.memory_kb is None ==> facet_row(f) == front + "—"@ + back
            &&& f.memory_kb matches Some(kb) ==> facet_row(f) == front + figures::gib_text(
                kb as nat / 1024,
            ) + back
        }),
{
    let front = "<tr><td>"@ + escaped(f.name@) + "</td><td>"@ + status_shown(f.status@)
        + "</td><td class=\"n\">"@;
    let back = STOP_FORM@ + escaped(f.id@) + STOP_BUTTON@;
    let shown = match f.memory_kb {
        Some(kb) => figures::gib_text(kb as nat / 1024),
        None => "—"@,
    };
    assert(front + shown + back =~= front + shown + STOP_FORM@ + escaped(f.id@) + STOP_BUTTON@);
}

} // verus!
