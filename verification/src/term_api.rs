//! What the terminal endpoints decide.
//!
//! Everything here needs an unlocked session. A shell is unrestricted access to
//! the machine, so it sits at the same tier as files rather than a lower one.
//!
//! The traffic itself is raw bytes in both directions — terminal traffic is
//! escape sequences, not text, and any framing or transcoding on the way through
//! would corrupt cursor addressing and colour.

use crate::api;
use crate::api::{Refused, RefusedView};
use crate::auth;
use crate::auth::{Authenticator, Sensitivity};
use crate::config::TerminalConfig;
use crate::governor::Tier;
use crate::term::pty::WinSize;
use crate::term::session;
use crate::term::session::{SessionManager, SpawnError, TermConfig};
use crate::text;
use vstd::prelude::*;

verus! {

/// How often to ping an idle socket, in seconds.
///
/// A terminal nobody is typing into sends nothing at all, and an idle WebSocket
/// gets dropped by browsers, proxies and NAT tables somewhere around half a
/// minute. A ping well inside that window keeps the connection accounted for as
/// live.
pub const PING_EVERY: u64 = 20;

/// A tier that a machine can start new work in.
pub open spec fn calm(tier: Seq<char>) -> bool {
    tier != "red"@ && tier != "black"@
}

/// Terminals are refused above Amber.
///
/// Opening a shell on a machine that is already failing adds load at the worst
/// possible moment. Existing sessions stay attached — the operator may well be
/// using one to fix the problem — and `/rescue` remains available regardless.
pub fn tier_allows_new_session(tier: &str) -> (r: bool)
    ensures
        r == calm(tier@),
{
    !text::same(tier, "red") && !text::same(tier, "black")
}

/// How a request for a terminal is refused, if it is.
pub open spec fn guarded(enabled: bool, denied: Option<RefusedView>) -> Option<RefusedView> {
    if !enabled {
        Some(
            RefusedView {
                status: 403,
                error: "terminal_disabled"@,
                detail: "terminal sessions are disabled on this host"@,
            },
        )
    } else {
        denied
    }
}

/// How a request for a terminal is refused, if it is.
pub fn guard(
    enabled: bool,
    auth: &Authenticator,
    authorization: Option<&str>,
    cookies: Option<&str>,
    now: u64,
) -> (r: Option<Refused>)
    ensures
        api::refused(r) == guarded(
            enabled,
            api::denied(
                auth::authorized(
                    auth.key(),
                    auth@,
                    api::token_of(authorization, cookies),
                    Sensitivity::Session,
                    now,
                ),
            ),
        ),
{
    if !enabled {
        return Some(
            Refused {
                status: 403,
                error: "terminal_disabled",
                detail: "terminal sessions are disabled on this host".to_string(),
            },
        );
    }
    api::require(auth, authorization, cookies, Sensitivity::Session, now)
}

/// How a new session is refused on a machine that is failing.
pub fn degraded() -> (r: Refused)
    ensures
        r@ == (RefusedView {
            status: 503,
            error: "degraded"@,
            detail: "the machine is under pressure; new terminals are refused. Use /rescue to recover."@,
        }),
{
    Refused {
        status: 503,
        error: "degraded",
        detail:
            "the machine is under pressure; new terminals are refused. Use /rescue to recover.".to_string(),
    }
}

/// How a session that could not be planned is refused.
pub fn spawn_refusal(e: SpawnError) -> (r: Refused)
    ensures
        r@ == (match e {
            SpawnError::Disabled => RefusedView {
                status: 403,
                error: "terminal_disabled"@,
                detail: "terminal sessions are disabled"@,
            },
            SpawnError::TooMany => RefusedView {
                status: 429,
                error: "too_many_sessions"@,
                detail: "close or kill an existing session first"@,
            },
        }),
{
    match e {
        SpawnError::Disabled => Refused {
            status: 403,
            error: "terminal_disabled",
            detail: "terminal sessions are disabled".to_string(),
        },
        SpawnError::TooMany => Refused {
            status: 429,
            error: "too_many_sessions",
            detail: "close or kill an existing session first".to_string(),
        },
    }
}

pub open spec fn within(n: u16, low: u16, high: u16) -> u16 {
    if n < low {
        low
    } else if n > high {
        high
    } else {
        n
    }
}

fn clamp(n: u16, low: u16, high: u16) -> (r: u16)
    ensures
        r == within(n, low, high),
{
    if n < low {
        low
    } else if n > high {
        high
    } else {
        n
    }
}

/// A window size that a terminal can have.
pub fn window(rows: u16, cols: u16) -> (r: WinSize)
    ensures
        r.rows == within(rows, 1, 500),
        r.cols == within(cols, 1, 1000),
{
    WinSize { rows: clamp(rows, 1, 500), cols: clamp(cols, 1, 1000) }
}

/// The window size of a new session: what is asked for, and else the usual.
pub fn new_window(rows: Option<u16>, cols: Option<u16>) -> (r: WinSize)
    ensures
        r.rows == within(
            match rows {
                Some(n) => n,
                None => 24,
            },
            1,
            500,
        ),
        r.cols == within(
            match cols {
                Some(n) => n,
                None => 80,
            },
            1,
            1000,
        ),
{
    let rows: u16 = match rows {
        Some(n) => n,
        None => 24,
    };
    let cols: u16 = match cols {
        Some(n) => n,
        None => 80,
    };
    window(rows, cols)
}

/// The title of a new session.
pub fn title_or_default(title: Option<&str>) -> (r: String)
    ensures
        r@ == (match title {
            Some(t) => t@,
            None => "Terminal"@,
        }),
{
    match title {
        Some(t) => t.to_string(),
        None => "Terminal".to_string(),
    }
}

/// Build a session configuration from host configuration. Where that names no
/// shell, it is the login shell: see [`session::login_shell`].
pub fn manager_from(cfg: &TerminalConfig, account: Option<&str>, env: Option<&str>) -> (r:
    TermConfig)
    ensures
        r@ == (session::TermView {
            enabled: cfg.enabled,
            shell: match text::opt(cfg.shell) {
                Some(s) => s,
                None => session::shell_of(account, env),
            },
            scrollback_bytes: cfg.scrollback_bytes,
            max_sessions: cfg.max_sessions,
            use_scope: cfg.use_scope,
        }),
{
    TermConfig {
        enabled: cfg.enabled,
        shell: match &cfg.shell {
            Some(s) => s.clone(),
            None => session::login_shell(account, env),
        },
        scrollback_bytes: cfg.scrollback_bytes,
        max_sessions: cfg.max_sessions,
        use_scope: cfg.use_scope,
    }
}

/// How much scrollback a session keeps in a tier, and never more than usual.
/// Retaining a quarter of a megabyte per session is a luxury a failing machine
/// cannot afford.
pub open spec fn retained(tier: Tier, usual: usize) -> nat {
    let most: nat = match tier {
        Tier::Green => usual as nat,
        Tier::Amber => usual as nat,
        Tier::Red => 32768,
        Tier::Black => 4096,
    };
    if most <= usual {
        most
    } else {
        usual as nat
    }
}

/// Tier-driven de-escalation of terminal resources.
pub fn apply_tier(mgr: &mut SessionManager, tier: Tier)
    requires
        old(mgr).wf(),
    ensures
        final(mgr).wf(),
        final(mgr).cfg() == old(mgr).cfg(),
        final(mgr).asked() == old(mgr).asked(),
        final(mgr).sessions() == old(mgr).sessions().map_values(
            |s: session::SessionView|
                session::shrunk(s, retained(tier, old(mgr).cfg().scrollback_bytes)),
        ),
{
    let usual: usize = mgr.config().scrollback_bytes;
    let most: usize = match tier {
        Tier::Green => usual,
        Tier::Amber => usual,
        Tier::Red => 32768,
        Tier::Black => 4096,
    };
    let cap: usize = if most <= usual {
        most
    } else {
        usual
    };
    let ghost n = retained(tier, mgr.cfg().scrollback_bytes);
    assert(cap == n);
    mgr.shrink_all_scrollback(cap);
}

/// What is retained shrinks as pressure grows, and is never more than usual.
pub proof fn scrollback_only_shrinks(usual: usize)
    ensures
        retained(Tier::Black, usual) <= retained(Tier::Red, usual) <= retained(Tier::Amber, usual)
            <= retained(Tier::Green, usual),
        retained(Tier::Green, usual) == usual,
{
}

/// De-escalation ends no session and loses none: whatever the tier, each is
/// still there, still running if it was, with no more than may be retained.
pub proof fn de_escalation_ends_nothing(v: Seq<session::SessionView>, tier: Tier, usual: usize, i: int)
    requires
        0 <= i < v.len(),
    ensures
        ({
            let w = v.map_values(
                |s: session::SessionView| session::shrunk(s, retained(tier, usual)),
            );
            &&& w.len() == v.len()
            &&& w[i].id == v[i].id
            &&& w[i].exited == v[i].exited
            &&& w[i].kept.len() <= retained(tier, usual)
        }),
{
}

/// How much of its output a session keeps: as much as is configured while the
/// machine is well, 32 KiB at most where it is red, and 4 KiB at most where it is
/// black.
pub proof fn scrollback_by_tier(usual: usize)
    ensures
        retained(Tier::Green, usual) == usual,
        retained(Tier::Amber, usual) == usual,
        usual <= 32 * 1024 ==> retained(Tier::Red, usual) == usual,
        usual > 32 * 1024 ==> retained(Tier::Red, usual) == 32 * 1024,
        usual <= 4 * 1024 ==> retained(Tier::Black, usual) == usual,
        usual > 4 * 1024 ==> retained(Tier::Black, usual) == 4 * 1024,
{
}

/// A size asked for is taken where it is between the bounds, and else the nearer
/// of them is.
pub proof fn a_size_stays_between_its_bounds(n: u16, low: u16, high: u16)
    requires
        low <= high,
    ensures
        low <= within(n, low, high) <= high,
        low <= n <= high ==> within(n, low, high) == n,
        n < low ==> within(n, low, high) == low,
        n > high ==> within(n, low, high) == high,
{
}

/// New work starts on a machine that is green or amber, and on none that is red or
/// black.
pub proof fn new_work_needs_a_calm_machine(tier: Tier)
    ensures
        calm(tier.name()) <==> tier == Tier::Green || tier == Tier::Amber,
{
    reveal_strlit("green");
    reveal_strlit("amber");
    reveal_strlit("red");
    reveal_strlit("black");
    assert("red"@.len() == 3 && "black"@.len() == 5 && "green"@.len() == 5 && "amber"@.len() == 5);
    assert("black"@[0] == 'b');
    assert("green"@[0] == 'g');
    assert("amber"@[0] == 'a');
}

/// Where terminals are switched off nobody gets one, signed in or not; where they
/// are on, whoever is let in does.
pub proof fn terminals_can_be_switched_off(denied: Option<RefusedView>)
    ensures
        guarded(false, denied) matches Some(r) && r.status == 403 && r.error
            == "terminal_disabled"@,
        guarded(true, denied) == denied,
{
}

} // verus!
