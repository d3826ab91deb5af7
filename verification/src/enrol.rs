//! Enrolment and re-enrolment of the authenticator secret.
//!
//! Re-enrolment is gated on **local filesystem access as the owning user**. That
//! is not a weaker boundary than the secret already has: anyone who can run the
//! command can also just read the secret's file. The command therefore adds
//! convenience, not exposure.
//!
//! It is deliberately **not** an HTTP endpoint, not even a localhost-only one:
//! localhost is reachable through an SSH tunnel from anywhere, and the whole
//! point is that re-enrolment requires something stronger than a network
//! position.

use crate::auth::totp;
use crate::text;
use vstd::prelude::*;

verus! {

/// Whether a stored secret can be used. One that was cut short is replaced
/// rather than used.
pub fn usable(secret: &[u8]) -> (r: bool)
    ensures
        r == (secret@.len() == totp::SECRET_LEN),
{
    secret.len() == totp::SECRET_LEN
}

/// What `prismd enrol` does.
#[derive(Debug, Clone, Copy, PartialEq, Eq, Structural)]
pub struct Plan {
    /// Make a new secret. Else an existing one is left alone, and not shown
    /// again: a second factor that can be re-read on request is not a second
    /// factor.
    pub make: bool,
    /// Sign every device out, too: a lost phone may have a live session on it,
    /// and revoking only the secret would leave that session working.
    pub sign_out: bool,
    /// The old secret is revoked.
    pub revoked: bool,
    /// The daemon has to be restarted for the change to take effect.
    pub restart: bool,
}

/// What `prismd enrol` does, given whether there is a secret and whether it is
/// to be reset.
pub open spec fn planned(exists: bool, reset: bool) -> Plan {
    if exists && !reset {
        Plan { make: false, sign_out: false, revoked: false, restart: false }
    } else {
        Plan { make: true, sign_out: reset && exists, revoked: reset && exists, restart: exists }
    }
}

/// What `prismd enrol` does, given whether there is a secret and whether it is
/// to be reset.
pub fn plan(exists: bool, reset: bool) -> (r: Plan)
    ensures
        r == planned(exists, reset),
{
    if exists && !reset {
        Plan { make: false, sign_out: false, revoked: false, restart: false }
    } else {
        Plan { make: true, sign_out: reset && exists, revoked: reset && exists, restart: exists }
    }
}

/// The account that an authenticator shows: a user at a host.
pub open spec fn account_of(user: Option<&str>, hostname: Option<&str>) -> Seq<char> {
    (match user {
        Some(u) => u@,
        None => "prism"@,
    }) + "@"@ + (match hostname {
        Some(h) => text::trim(h@),
        None => "localhost"@,
    })
}

/// The account that an authenticator shows.
pub fn account(user: Option<&str>, hostname: Option<&str>) -> (r: String)
    ensures
        r@ == account_of(user, hostname),
{
    let mut out = match user {
        Some(u) => u.to_string(),
        None => "prism".to_string(),
    };
    out.append("@");
    match hostname {
        Some(h) => {
            out.append(text::trim_str(h).as_str());
        },
        None => {
            out.append("localhost");
        },
    }
    out
}

fn add_line(out: &mut Vec<String>, line: &str)
    ensures
        text::strs(final(out)@) == text::strs(old(out)@).push(line@),
{
    let s = line.to_string();
    proof {
        text::lemma_strs_push(out@, s);
    }
    out.push(s);
}

/// What is shown above the code to scan.
pub open spec fn banner_top(revoked: bool) -> Seq<Seq<char>> {
    seq![""@, "──────────────────── PRISM ENROLMENT ────────────────────"@] + (
    if revoked {
        seq![
            "The previous secret has been revoked. Any device still"@,
            "holding it can no longer sign in."@,
            ""@,
        ]
    } else {
        seq![]
    }) + seq!["Scan this with Google or Microsoft Authenticator:"@, ""@]
}

/// What is shown below the code to scan.
pub open spec fn banner_end(secret: Seq<u8>, path: Seq<char>, scannable: bool) -> Seq<Seq<char>> {
    (if scannable {
        seq![]
    } else {
        seq!["  (install `qrencode` to display a scannable code)"@, ""@]
    }) + seq![
        "  secret : "@ + totp::base32(secret),
        "  type   : time-based, 6 digits, 30 seconds"@,
        ""@,
        "Stored at "@ + path,
        "Re-run `prismd enrol --reset` to revoke and replace it."@,
        "─────────────────────────────────────────────────────────"@,
        ""@,
    ]
}

/// What is shown above the code to scan.
pub fn banner_head(revoked: bool) -> (r: Vec<String>)
    ensures
        text::strs(r@) == banner_top(revoked),
{
    let mut out: Vec<String> = Vec::new();
    add_line(&mut out, "");
    add_line(&mut out, "──────────────────── PRISM ENROLMENT ────────────────────");
    if revoked {
        add_line(&mut out, "The previous secret has been revoked. Any device still");
        add_line(&mut out, "holding it can no longer sign in.");
        add_line(&mut out, "");
    }
    add_line(&mut out, "Scan this with Google or Microsoft Authenticator:");
    add_line(&mut out, "");
    assert(text::strs(out@) =~= banner_top(revoked));
    out
}

/// What is shown below the code to scan.
pub fn banner_tail(secret: &[u8], path: &str, scannable: bool) -> (r: Vec<String>)
    ensures
        text::strs(r@) == banner_end(secret@, path@, scannable),
{
    let mut out: Vec<String> = Vec::new();
    if !scannable {
        add_line(&mut out, "  (install `qrencode` to display a scannable code)");
        add_line(&mut out, "");
    }
    let mut written = "  secret : ".to_string();
    written.append(totp::base32_encode(secret).as_str());
    add_line(&mut out, written.as_str());
    add_line(&mut out, "  type   : time-based, 6 digits, 30 seconds");
    add_line(&mut out, "");
    let mut stored = "Stored at ".to_string();
    stored.append(path);
    add_line(&mut out, stored.as_str());
    add_line(&mut out, "Re-run `prismd enrol --reset` to revoke and replace it.");
    add_line(&mut out, "─────────────────────────────────────────────────────────");
    add_line(&mut out, "");
    assert(text::strs(out@) =~= banner_end(secret@, path@, scannable));
    out
}

/// What is told where a secret is there already.
pub open spec fn already(path: Seq<char>) -> Seq<Seq<char>> {
    seq![
        ""@,
        "An authenticator secret is already enrolled at"@,
        "  "@ + path,
        ""@,
        "It is not displayed again by design: a second factor that can"@,
        "be re-read on request is not a second factor."@,
        ""@,
        "If the device holding it is lost, revoke and replace it with:"@,
        "  prismd enrol --reset"@,
        ""@,
    ]
}

/// What is told where a secret is there already.
pub fn already_enrolled(path: &str) -> (r: Vec<String>)
    ensures
        text::strs(r@) == already(path@),
{
    let mut out: Vec<String> = Vec::new();
    add_line(&mut out, "");
    add_line(&mut out, "An authenticator secret is already enrolled at");
    let mut at = "  ".to_string();
    at.append(path);
    add_line(&mut out, at.as_str());
    add_line(&mut out, "");
    add_line(&mut out, "It is not displayed again by design: a second factor that can");
    add_line(&mut out, "be re-read on request is not a second factor.");
    add_line(&mut out, "");
    add_line(&mut out, "If the device holding it is lost, revoke and replace it with:");
    add_line(&mut out, "  prismd enrol --reset");
    add_line(&mut out, "");
    assert(text::strs(out@) =~= already(path@));
    out
}

/// A secret is never rotated by accident, and a reset of one that is there
/// always signs every device out.
pub proof fn only_a_reset_replaces(exists: bool, reset: bool)
    ensures
        exists && !reset ==> !planned(exists, reset).make,
        exists && reset ==> planned(exists, reset).make && planned(exists, reset).sign_out,
        !exists ==> planned(exists, reset).make && !planned(exists, reset).sign_out,
{
}

/// What enrolling does. It makes a secret where there is none or a reset is asked
/// for; a reset that replaces one revokes it and signs everyone out; and a daemon
/// that may hold an old one has to be started again.
pub proof fn what_enrolling_does(present: bool, reset: bool)
    ensures
        planned(present, reset).make <==> !present || reset,
        planned(present, reset).sign_out <==> present && reset,
        planned(present, reset).revoked <==> present && reset,
        planned(present, reset).restart <==> present && reset,
{
}

/// The account is named after its user and host, as far as they are known.
pub proof fn an_account_is_named_after_user_and_host(user: &str, host: &str)
    ensures
        account_of(Some(user), Some(host)) == user@ + "@"@ + text::trim(host@),
        account_of(None, Some(host)) == "prism"@ + "@"@ + text::trim(host@),
        account_of(Some(user), None) == user@ + "@"@ + "localhost"@,
        account_of(None, None) == "prism"@ + "@"@ + "localhost"@,
{
}

/// The secret is shown in the form that an authenticator takes, with where it is
/// kept; without a code to scan it is said how to get one.
pub proof fn the_secret_is_shown_to_be_typed(secret: Seq<u8>, path: Seq<char>, scannable: bool)
    ensures
        banner_end(secret, path, scannable).contains("  secret : "@ + totp::base32(secret)),
        banner_end(secret, path, scannable).contains("Stored at "@ + path),
        !scannable ==> banner_end(secret, path, scannable)[0]
            == "  (install `qrencode` to display a scannable code)"@,
{
    let b = banner_end(secret, path, scannable);
    let k: int = if scannable {
        0
    } else {
        2
    };
    assert(b[k] == "  secret : "@ + totp::base32(secret));
    assert(b[k + 3] == "Stored at "@ + path);
}

} // verus!
