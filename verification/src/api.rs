//! What the tailnet HTTP API decides: whose request it is, what signing in
//! answers, and what the dashboard is told.
//!
//! Every route declares its [`Sensitivity`]. Authorisation is applied from that
//! rather than inside each handler, so adding an endpoint cannot accidentally
//! default to open.

use crate::auth;
use crate::auth::{AuthOutcome, AuthPolicy, Authenticator, CodeOutcome, LoginPrompt, Sensitivity};
use crate::governor::Tier;
use crate::sensors::disk::MountUsage;
use crate::sensors::memory;
use crate::sensors::memory::{MemorySnapshot, Ratio};
use crate::text;
use vstd::prelude::*;

verus! {

// ---------------------------------------------------------------------------
// The dashboard
// ---------------------------------------------------------------------------

/// The latest reading, published by the monitor loop and read by the API.
#[derive(Debug, Clone)]
pub struct Vitals {
    pub tier: &'static str,
    /// Share of wall time fully stalled on memory, in parts per billion.
    pub stall_full: u64,
    pub honest_headroom_mib: u64,
    pub phantom_headroom_mib: u64,
    pub total_mib: u64,
    pub available_mib: u64,
    pub swap_total_mib: u64,
    pub swap_free_mib: u64,
    pub zram_cost_mib: u64,
    pub compression_ratio: Option<Ratio>,
    /// Tightest watched filesystem, if disk is being sensed.
    pub disk: Option<DiskVitals>,
    /// Graphics memory, if there is a driver to ask.
    pub vram: Option<VramVitals>,
}

#[derive(Debug, Clone)]
pub struct DiskVitals {
    pub path: String,
    pub total_mib: u64,
    pub free_mib: u64,
    /// In thousandths of a percent.
    pub used_pct: u64,
    /// In thousandths of a percent.
    pub inodes_used_pct: u64,
}

#[derive(Debug, Clone, Copy)]
pub struct VramVitals {
    pub total_mib: u64,
    pub ours_mib: u64,
    pub foreign_mib: u64,
    pub budget_mib: u64,
    pub overdraft_mib: u64,
    pub spill_liability_mib: u64,
}

impl Default for Vitals {
    fn default() -> (r: Self)
        ensures
            r.tier@ == ""@,
            r.stall_full == 0,
            r.honest_headroom_mib == 0,
            r.phantom_headroom_mib == 0,
            r.total_mib == 0,
            r.available_mib == 0,
            r.swap_total_mib == 0,
            r.swap_free_mib == 0,
            r.zram_cost_mib == 0,
            r.compression_ratio is None,
            r.disk is None,
            r.vram is None,
    {
        Vitals {
            tier: "",
            stall_full: 0,
            honest_headroom_mib: 0,
            phantom_headroom_mib: 0,
            total_mib: 0,
            available_mib: 0,
            swap_total_mib: 0,
            swap_free_mib: 0,
            zram_cost_mib: 0,
            compression_ratio: None,
            disk: None,
            vram: None,
        }
    }
}

/// What is told of memory, of the tier, and of graphics memory.
pub open spec fn tells(
    v: Vitals,
    mem: MemorySnapshot,
    stall_full: u64,
    tier: Tier,
    vram: Option<VramVitals>,
) -> bool {
    &&& v.tier@ == tier.name()
    &&& v.stall_full == stall_full
    &&& v.honest_headroom_mib == mem.honest_headroom_kb / 1024
    &&& v.phantom_headroom_mib == memory::less(
        memory::capped(mem.available_kb + mem.swap_free_kb),
        mem.honest_headroom_kb as int,
    ) / 1024
    &&& v.total_mib == mem.total_kb / 1024
    &&& v.available_mib == mem.available_kb / 1024
    &&& v.swap_total_mib == mem.swap_total_kb / 1024
    &&& v.swap_free_mib == mem.swap_free_kb / 1024
    &&& v.zram_cost_mib == mem.zram_cost_kb / 1024
    &&& v.compression_ratio == mem.compression_ratio
    &&& v.vram == vram
}

/// What is told of a filesystem.
pub open spec fn tells_disk(v: DiskVitals, d: MountUsage) -> bool {
    &&& v.path@ == d.path@
    &&& v.total_mib == d.total_kb / 1024
    &&& v.free_mib == d.available_kb / 1024
    &&& v.used_pct == crate::sensors::disk::share(d.used(), d.total_kb as int)
    &&& v.inodes_used_pct == crate::sensors::disk::share(
        if d.inodes_total >= d.inodes_free {
            d.inodes_total - d.inodes_free
        } else {
            0
        },
        d.inodes_total as int,
    )
}

impl Vitals {
    pub fn from_sample(
        mem: &MemorySnapshot,
        stall_full: u64,
        tier: Tier,
        disk: Option<&MountUsage>,
        vram: Option<VramVitals>,
    ) -> (r: Self)
        ensures
            tells(r, *mem, stall_full, tier, vram),
            match disk {
                Some(d) => r.disk is Some && tells_disk(r.disk->0, *d),
                None => r.disk is None,
            },
    {
        Vitals {
            tier: tier.as_str(),
            stall_full,
            honest_headroom_mib: mem.honest_headroom_kb / 1024,
            phantom_headroom_mib: mem.phantom_headroom_kb() / 1024,
            total_mib: mem.total_kb / 1024,
            available_mib: mem.available_kb / 1024,
            swap_total_mib: mem.swap_total_kb / 1024,
            swap_free_mib: mem.swap_free_kb / 1024,
            zram_cost_mib: mem.zram_cost_kb / 1024,
            compression_ratio: mem.compression_ratio,
            disk: match disk {
                Some(d) => Some(
                    DiskVitals {
                        path: d.path.clone(),
                        total_mib: d.total_kb / 1024,
                        free_mib: d.available_mib(),
                        used_pct: d.used_pct(),
                        inodes_used_pct: d.inodes_used_pct(),
                    },
                ),
                None => None,
            },
            vram,
        }
    }
}

// ---------------------------------------------------------------------------
// Whose request it is
// ---------------------------------------------------------------------------

pub const SESSION_COOKIE: &'static str = "prism_session";

/// Long-lived, and separate on purpose: clearing a session must not un-enrol the
/// browser, or every sign-in would need the phone again.
pub const DEVICE_COOKIE: &'static str = "prism_device";

/// The value of the first cookie of a name.
pub open spec fn cookie_in(parts: Seq<Seq<char>>, name: Seq<char>) -> Option<Seq<char>>
    decreases parts.len(),
{
    if parts.len() == 0 {
        None
    } else {
        match text::split_once(parts[0], '=') {
            Some((k, v)) => if text::trim(k) == name {
                Some(text::trim(v))
            } else {
                cookie_in(parts.skip(1), name)
            },
            None => cookie_in(parts.skip(1), name),
        }
    }
}

/// The value of the first cookie of a name in a `Cookie` header.
pub open spec fn cookie_of(header: Option<&str>, name: Seq<char>) -> Option<Seq<char>> {
    match header {
        Some(h) => cookie_in(text::split(h@, ';'), name),
        None => None,
    }
}

/// The value of the first cookie of a name in a `Cookie` header.
pub fn cookie(header: Option<&str>, name: &str) -> (r: Option<String>)
    ensures
        text::opt(r) == cookie_of(header, name@),
{
    let h = match header {
        Some(h) => h,
        None => {
            return None;
        },
    };
    let parts = text::split_str(h, ';');
    let ghost all = text::split(h@, ';');
    let mut i: usize = 0;
    assert(all.skip(0) =~= all);
    while i < parts.len()
        invariant
            i <= parts.len(),
            all == text::strs(parts@),
            all == text::split(h@, ';'),
            header == Some(h),
            cookie_in(all.skip(i as int), name@) == cookie_in(all, name@),
        decreases parts.len() - i,
    {
        assert(all.skip(i as int)[0] == parts@[i as int]@);
        assert(all.skip(i as int).skip(1) =~= all.skip(i + 1));
        match text::split_first(parts[i].as_str(), '=') {
            Some((k, v)) => {
                if text::same(text::trim_str(k.as_str()).as_str(), name) {
                    return Some(text::trim_str(v.as_str()));
                }
            },
            None => {},
        }
        i += 1;
    }
    None
}

/// The token that a request carries: that of a bearer header, which goes first,
/// or that of the session cookie.
pub open spec fn token_of(authorization: Option<&str>, cookies: Option<&str>) -> Option<Seq<char>> {
    if authorization is Some && text::starts(authorization->0@, "Bearer "@) {
        Some(text::trim(authorization->0@.skip("Bearer "@.len() as int)))
    } else {
        cookie_of(cookies, SESSION_COOKIE@)
    }
}

/// The session token, from either the cookie or a bearer header.
///
/// The header form exists so the CLI and scripts do not need a cookie jar.
pub fn session_token(authorization: Option<&str>, cookies: Option<&str>) -> (r: Option<String>)
    ensures
        text::opt(r) == token_of(authorization, cookies),
{
    match authorization {
        Some(a) => match text::strip_prefix(a, "Bearer ") {
            Some(bearer) => {
                return Some(text::trim_str(bearer.as_str()));
            },
            None => {},
        },
        None => {},
    }
    cookie(cookies, SESSION_COOKIE)
}

pub fn device_token(cookies: Option<&str>) -> (r: Option<String>)
    ensures
        text::opt(r) == cookie_of(cookies, DEVICE_COOKIE@),
{
    cookie(cookies, DEVICE_COOKIE)
}

/// A cookie that only this site is sent, and that no script can read.
pub open spec fn cookie_line(name: Seq<char>, token: Seq<char>, ttl: u64) -> Seq<char> {
    name + "="@ + token + "; Path=/; HttpOnly; SameSite=Strict; Max-Age="@ + text::dec(ttl as nat)
}

fn cookie_text(name: &str, token: &str, ttl: u64) -> (r: String)
    ensures
        r@ == cookie_line(name@, token@, ttl),
{
    let mut out = name.to_string();
    out.append("=");
    out.append(token);
    out.append("; Path=/; HttpOnly; SameSite=Strict; Max-Age=");
    text::push_dec(&mut out, ttl);
    out
}

pub fn session_cookie(token: &str, ttl: u64) -> (r: String)
    ensures
        r@ == cookie_line(SESSION_COOKIE@, token@, ttl),
{
    cookie_text(SESSION_COOKIE, token, ttl)
}

pub fn device_cookie(token: &str, ttl: u64) -> (r: String)
    ensures
        r@ == cookie_line(DEVICE_COOKIE@, token@, ttl),
{
    cookie_text(DEVICE_COOKIE, token, ttl)
}

/// A request that is answered with an error.
#[derive(Debug)]
pub struct Refused {
    pub status: u16,
    pub error: &'static str,
    pub detail: String,
}

pub struct RefusedView {
    pub status: u16,
    pub error: Seq<char>,
    pub detail: Seq<char>,
}

impl View for Refused {
    type V = RefusedView;

    open spec fn view(&self) -> RefusedView {
        RefusedView { status: self.status, error: self.error@, detail: self.detail@ }
    }
}

pub open spec fn too_many(retry_after_secs: u64) -> Seq<char> {
    "too many attempts; retry in "@ + text::dec(retry_after_secs as nat) + "s"@
}

/// Why everything is refused for a while.
pub fn too_many_attempts(retry_after_secs: u64) -> (r: String)
    ensures
        r@ == too_many(retry_after_secs),
{
    let mut out = "too many attempts; retry in ".to_string();
    text::push_dec(&mut out, retry_after_secs);
    out.append("s");
    out
}

/// How a request is refused that may not reach what it asks for.
pub open spec fn denied(outcome: AuthOutcome) -> Option<RefusedView> {
    match outcome {
        AuthOutcome::Granted => None,
        AuthOutcome::Unauthenticated => Some(
            RefusedView {
                status: 401,
                error: "unauthenticated"@,
                detail: "sign in with an authenticator code"@,
            },
        ),
        AuthOutcome::LockedOut { retry_after_secs } => Some(
            RefusedView {
                status: 429,
                error: "locked_out"@,
                detail: too_many(retry_after_secs),
            },
        ),
    }
}

pub open spec fn refused(r: Option<Refused>) -> Option<RefusedView> {
    match r {
        Some(x) => Some(x@),
        None => None,
    }
}

/// How a request is refused that may not reach what it asks for.
pub fn denial(outcome: AuthOutcome) -> (r: Option<Refused>)
    ensures
        refused(r) == denied(outcome),
{
    match outcome {
        AuthOutcome::Granted => None,
        AuthOutcome::Unauthenticated => Some(
            Refused {
                status: 401,
                error: "unauthenticated",
                detail: "sign in with an authenticator code".to_string(),
            },
        ),
        AuthOutcome::LockedOut { retry_after_secs } => Some(
            Refused {
                status: 429,
                error: "locked_out",
                detail: too_many_attempts(retry_after_secs),
            },
        ),
    }
}

/// Enforce a tier, returning the error to answer if it is not met.
pub fn require(
    auth: &Authenticator,
    authorization: Option<&str>,
    cookies: Option<&str>,
    need: Sensitivity,
    now: u64,
) -> (r: Option<Refused>)
    ensures
        refused(r) == denied(
            auth::authorized(auth.key(), auth@, token_of(authorization, cookies), need, now),
        ),
{
    let token = session_token(authorization, cookies);
    let outcome = match &token {
        Some(t) => auth.authorize(Some(t.as_str()), need, now),
        None => auth.authorize(None, need, now),
    };
    denial(outcome)
}

// ---------------------------------------------------------------------------
// Signing in
// ---------------------------------------------------------------------------

/// The name of what the login screen asks for.
pub fn prompt_name(prompt: LoginPrompt) -> (r: &'static str)
    ensures
        r@ == (match prompt {
            LoginPrompt::Password => "password"@,
            LoginPrompt::Code => "code"@,
        }),
{
    match prompt {
        LoginPrompt::Password => "password",
        LoginPrompt::Code => "code",
    }
}

/// What signing in answers.
#[derive(Debug)]
pub enum LoginAnswer {
    SignedIn {
        /// Also told in the body, so that a client that is no browser needs no
        /// cookie jar.
        token: String,
        /// This sign-in also enrolled the browser.
        enrolled: bool,
        cookies: Vec<String>,
    },
    Refused(Refused),
}

pub enum LoginView {
    SignedIn { token: Seq<char>, enrolled: bool, cookies: Seq<Seq<char>> },
    Refused(RefusedView),
}

impl View for LoginAnswer {
    type V = LoginView;

    open spec fn view(&self) -> LoginView {
        match *self {
            LoginAnswer::SignedIn { token, enrolled, cookies } => LoginView::SignedIn {
                token: token@,
                enrolled,
                cookies: text::strs(cookies@),
            },
            LoginAnswer::Refused(r) => LoginView::Refused(r@),
        }
    }
}

/// The answer to an attempt, given what came of it.
pub open spec fn answer(
    p: AuthPolicy,
    outcome: CodeOutcome,
    session: Option<Seq<char>>,
    device: Option<Seq<char>>,
) -> LoginView {
    match (outcome, session) {
        (CodeOutcome::Accepted, Some(token)) => LoginView::SignedIn {
            token,
            enrolled: device is Some,
            cookies: seq![cookie_line(SESSION_COOKIE@, token, p.session_ttl_secs)] + (
            match device {
                Some(d) => seq![cookie_line(DEVICE_COOKIE@, d, p.device_ttl_secs)],
                None => seq![],
            }),
        },
        (CodeOutcome::Replayed, _) => LoginView::Refused(
            RefusedView {
                status: 401,
                error: "code_already_used"@,
                detail: "that code has already been used; wait for the next one"@,
            },
        ),
        (CodeOutcome::LockedOut { retry_after_secs }, _) => LoginView::Refused(
            RefusedView {
                status: 429,
                error: "locked_out"@,
                detail: too_many(retry_after_secs),
            },
        ),
        _ => LoginView::Refused(
            RefusedView { status: 401, error: "invalid"@, detail: "incorrect"@ },
        ),
    }
}

/// The answer to an attempt, given what came of it.
pub fn answer_to(
    policy: &AuthPolicy,
    outcome: CodeOutcome,
    session: Option<String>,
    device: Option<String>,
) -> (r: LoginAnswer)
    ensures
        r@ == answer(*policy, outcome, text::opt(session), text::opt(device)),
{
    match (outcome, session) {
        (CodeOutcome::Accepted, Some(token)) => {
            let mut cookies: Vec<String> = Vec::new();
            cookies.push(session_cookie(token.as_str(), policy.session_ttl_secs));
            let enrolled = device.is_some();
            match &device {
                Some(d) => {
                    cookies.push(device_cookie(d.as_str(), policy.device_ttl_secs));
                },
                None => {},
            }
            assert(text::strs(cookies@) =~= seq![
                cookie_line(SESSION_COOKIE@, token@, policy.session_ttl_secs),
            ] + (match text::opt(device) {
                Some(d) => seq![cookie_line(DEVICE_COOKIE@, d, policy.device_ttl_secs)],
                None => seq![],
            }));
            LoginAnswer::SignedIn { token, enrolled, cookies }
        },
        (CodeOutcome::Replayed, _) => LoginAnswer::Refused(
            Refused {
                status: 401,
                error: "code_already_used",
                detail: "that code has already been used; wait for the next one".to_string(),
            },
        ),
        (CodeOutcome::LockedOut { retry_after_secs }, _) => LoginAnswer::Refused(
            Refused {
                status: 429,
                error: "locked_out",
                detail: too_many_attempts(retry_after_secs),
            },
        ),
        _ => LoginAnswer::Refused(
            Refused { status: 401, error: "invalid", detail: "incorrect".to_string() },
        ),
    }
}

/// What someone signs in with: a code where there is one, else a password.
pub enum Credential {
    Code(Seq<char>),
    Password(Seq<char>),
    Nothing,
}

pub open spec fn credential(code: Option<&str>, password: Option<&str>) -> Credential {
    if code is Some && text::trim(code->0@).len() > 0 {
        Credential::Code(code->0@)
    } else if password is Some && password->0@.len() > 0 {
        Credential::Password(password->0@)
    } else {
        Credential::Nothing
    }
}

/// Where a step leads, and the answer to it.
pub open spec fn stepped(
    auth: &Authenticator,
    step: (auth::AuthState, CodeOutcome),
    enrols: bool,
    now: u64,
) -> (auth::AuthState, LoginView) {
    let accepted = step.1 == CodeOutcome::Accepted;
    (
        step.0,
        answer(
            auth.rules(),
            step.1,
            if accepted {
                Some(auth::session_token(auth.key(), auth.rules(), now))
            } else {
                None
            },
            if accepted && enrols {
                Some(auth::device_token(auth.key(), auth.rules(), now))
            } else {
                None
            },
        ),
    )
}

/// Where an attempt to sign in leads, and what it answers. A code enrols the
/// browser and unlocks in one step; a password only unlocks, and only on a
/// browser already enrolled.
pub open spec fn signed_in(
    auth: &Authenticator,
    tried: Credential,
    device: Option<Seq<char>>,
    now: u64,
) -> (auth::AuthState, LoginView) {
    match tried {
        Credential::Code(code) => stepped(
            auth,
            auth::code_step(
                auth.rules(),
                auth@,
                auth::looked_at(auth.secret(), code, auth.rules(), now),
                now,
            ),
            true,
            now,
        ),
        Credential::Password(word) => stepped(
            auth,
            auth::password_step(
                auth.rules(),
                auth@,
                auth::prompt(auth.key(), auth@, device, now),
                auth::password_matches(auth@, word),
                now,
            ),
            false,
            now,
        ),
        Credential::Nothing => (
            auth@,
            LoginView::Refused(
                RefusedView {
                    status: 400,
                    error: "no_credential"@,
                    detail: "provide a code or a password"@,
                },
            ),
        ),
    }
}

/// Sign in with whichever credential is given.
pub fn login(
    auth: &mut Authenticator,
    code: Option<&str>,
    password: Option<&str>,
    device: Option<&str>,
    now: u64,
) -> (r: LoginAnswer)
    requires
        old(auth).wf(),
        credential(code, password) is Code ==> auth::tells_time(old(auth).rules(), now),
        credential(code, password) is Password ==> auth::tells_unlock(old(auth).rules(), now),
    ensures
        final(auth).wf(),
        final(auth).same_setup(old(auth)),
        (final(auth)@, r@) == signed_in(
            old(auth),
            credential(code, password),
            auth::seen(device),
            now,
        ),
{
    let policy: AuthPolicy = *auth.policy();
    match code {
        Some(c) => {
            if !text::trim_str(c).as_str().is_empty() {
                let (outcome, session, device) = auth.submit_code(c, now);
                return answer_to(&policy, outcome, session, device);
            }
        },
        None => {},
    }
    match password {
        Some(p) => {
            if !p.is_empty() {
                let (outcome, session) = auth.submit_password(p, device, now);
                return answer_to(&policy, outcome, session, None);
            }
        },
        None => {},
    }
    LoginAnswer::Refused(
        Refused {
            status: 400,
            error: "no_credential",
            detail: "provide a code or a password".to_string(),
        },
    )
}

// ---------------------------------------------------------------------------
// Laws
// ---------------------------------------------------------------------------

/// Only an unlocked session reaches what is not public: a request that is let
/// through carries one, and nothing is locked.
pub proof fn only_a_session_is_let_through(
    key: Seq<u8>,
    s: auth::AuthState,
    token: Option<Seq<char>>,
    now: u64,
)
    ensures
        denied(auth::authorized(key, s, token, Sensitivity::Session, now)) is None ==> token is Some
            && auth::unlocked(key, token->0, now) && auth::locked(s, now) is None,
        denied(auth::authorized(key, s, token, Sensitivity::Public, now)) is None,
{
}

/// A password never enrols a browser, and a code that is accepted always does.
pub proof fn only_a_code_enrols(
    auth: &Authenticator,
    tried: Credential,
    device: Option<Seq<char>>,
    now: u64,
)
    ensures
        signed_in(auth, tried, device, now).1 matches LoginView::SignedIn { enrolled, .. } ==> (
        enrolled <==> tried is Code),
        tried is Nothing ==> signed_in(auth, tried, device, now).1 is Refused,
{
}

/// A password is worth nothing on a browser that is not enrolled.
pub proof fn a_password_needs_an_enrolled_browser(
    auth: &Authenticator,
    word: Seq<char>,
    device: Option<Seq<char>>,
    now: u64,
)
    requires
        device is None || !auth::enrolled(auth.key(), device->0, now),
    ensures
        signed_in(auth, Credential::Password(word), device, now).1 is Refused,
{
}

/// What signing in sets as a cookie is what a later request is known by.
pub proof fn the_cookie_carries_the_token(name: Seq<char>, token: Seq<char>)
    requires
        !name.contains('='),
        !name.contains(';'),
        !token.contains(';'),
        text::trim(name) == name,
        text::trim(token) == token,
    ensures
        cookie_in(text::split(name + "="@ + token, ';'), name) == Some(token),
{
    reveal_strlit("=");
    let s = name + "="@ + token;
    assert(!s.contains(';')) by {
        if s.contains(';') {
            let i = choose|i: int| 0 <= i < s.len() && s[i] == ';';
            if i < name.len() {
                assert(name[i] == ';');
            } else if i > name.len() {
                assert(token[i - name.len() - 1] == ';');
            }
        }
    }
    text::lemma_split_one(s, ';');
    assert forall|j: int| 0 <= j < name.len() implies s[j] != '=' by {
        assert(s[j] == name[j]);
        assert(name.contains(name[j]));
    }
    assert(s[name.len() as int] == '=');
    text::lemma_pos_is(s, '=', name.len() as int);
    assert(s.take(name.len() as int) =~= name);
    assert(s.skip(name.len() as int + 1) =~= token);
    assert(text::split(s, ';')[0] == s);
}

/// The part of a `Cookie` header at `i` is the first that sets the name.
pub open spec fn sets_first(parts: Seq<Seq<char>>, name: Seq<char>, i: int) -> bool {
    &&& 0 <= i < parts.len()
    &&& sets(parts[i], name)
    &&& forall|j: int| 0 <= j < i ==> !sets(#[trigger] parts[j], name)
}

/// A part of a `Cookie` header has the name before its first equals sign.
pub open spec fn sets(part: Seq<char>, name: Seq<char>) -> bool {
    exists|k: int|
        0 <= k < part.len() && #[trigger] part[k] == '=' && text::trim(part.take(k)) == name
            && forall|j: int| 0 <= j < k ==> part[j] != '='
}

proof fn lemma_sets(part: Seq<char>, name: Seq<char>)
    ensures
        sets(part, name) <==> (text::split_once(part, '=') matches Some(p) && text::trim(p.0)
            == name),
{
    text::lemma_pos(part, '=');
    let k = text::pos(part, '=');
    if sets(part, name) {
        let i = choose|i: int|
            0 <= i < part.len() && #[trigger] part[i] == '=' && text::trim(part.take(i)) == name
                && forall|j: int| 0 <= j < i ==> part[j] != '=';
        text::lemma_pos_is(part, '=', i);
    }
    if k < part.len() {
        assert(part[k] == '=');
    }
}

/// A request is known by the first cookie of a name, and by none where no cookie
/// has the name.
pub proof fn the_first_cookie_of_a_name_counts(parts: Seq<Seq<char>>, name: Seq<char>, i: int)
    ensures
        sets_first(parts, name, i) ==> cookie_in(parts, name) == Some(
            text::trim(parts[i].skip(text::pos(parts[i], '=') + 1)),
        ),
        (forall|j: int| 0 <= j < parts.len() ==> !sets(#[trigger] parts[j], name)) ==> cookie_in(
            parts,
            name,
        ) is None,
    decreases parts.len(),
{
    if parts.len() > 0 {
        lemma_sets(parts[0], name);
        let rest = parts.skip(1);
        the_first_cookie_of_a_name_counts(rest, name, i - 1);
        if sets_first(parts, name, i) && i > 0 {
            assert(!sets(parts[0], name));
            assert(rest[i - 1] == parts[i]);
            assert forall|j: int| 0 <= j < i - 1 implies !sets(#[trigger] rest[j], name) by {
                assert(rest[j] == parts[j + 1]);
            }
        }
        if forall|j: int| 0 <= j < parts.len() ==> !sets(#[trigger] parts[j], name) {
            assert(!sets(parts[0], name));
            assert forall|j: int| 0 <= j < rest.len() implies !sets(#[trigger] rest[j], name) by {
                assert(rest[j] == parts[j + 1]);
            }
        }
    }
}

/// A bearer header is asked first, and what follows the word is the token; without
/// one the token is the session cookie's.
pub proof fn a_bearer_header_goes_first(bearer: &str, other: &str, cookies: Option<&str>)
    requires
        bearer@.len() >= 7,
        bearer@.take(7) == "Bearer "@,
        other@.len() < 7 || other@.take(7) != "Bearer "@,
    ensures
        token_of(Some(bearer), cookies) == Some(text::trim(bearer@.skip(7))),
        token_of(Some(other), cookies) == cookie_of(cookies, "prism_session"@),
        token_of(None, cookies) == cookie_of(cookies, "prism_session"@),
{
    reveal_strlit("Bearer ");
    assert(bearer@.take(7) =~= bearer@.subrange(0, 7));
    if other@.len() >= 7 {
        assert(other@.take(7) =~= other@.subrange(0, 7));
    }
}

/// How a request is refused: one without a session is told to sign in, and one
/// during a lockout when to come back.
pub proof fn a_denial_says_why(secs: u64)
    ensures
        denied(AuthOutcome::Granted) is None,
        denied(AuthOutcome::Unauthenticated) matches Some(r) && r.status == 401 && r.error
            == "unauthenticated"@,
        denied(AuthOutcome::LockedOut { retry_after_secs: secs }) matches Some(r) && r.status == 429
            && r.error == "locked_out"@ && r.detail == "too many attempts; retry in "@ + text::dec(
            secs as nat,
        ) + "s"@,
{
}

/// What an attempt to sign in is answered. One that is accepted sets the session
/// cookie for as long as a session lasts, and the device cookie for as long as an
/// enrolment does where it enrols; a replayed code, a lockout and anything that is
/// wrong are told apart.
pub proof fn an_attempt_is_answered(p: AuthPolicy, token: Seq<char>, device: Seq<char>, secs: u64)
    ensures
        ({
            let fixed = "; Path=/; HttpOnly; SameSite=Strict; Max-Age="@;
            let session = "prism_session"@ + "="@ + token + fixed + text::dec(
                p.session_ttl_secs as nat,
            );
            let enrolled = "prism_device"@ + "="@ + device + fixed + text::dec(
                p.device_ttl_secs as nat,
            );
            &&& answer(p, CodeOutcome::Accepted, Some(token), Some(device)) == (
            LoginView::SignedIn { token, enrolled: true, cookies: seq![session, enrolled] })
            &&& answer(p, CodeOutcome::Accepted, Some(token), None) == (LoginView::SignedIn {
                token,
                enrolled: false,
                cookies: seq![session],
            })
            &&& answer(p, CodeOutcome::Replayed, Some(token), Some(device)) matches
                LoginView::Refused(r) && r.status == 401 && r.error == "code_already_used"@
            &&& answer(p, CodeOutcome::Rejected, Some(token), Some(device)) matches
                LoginView::Refused(r) && r.status == 401 && r.error == "invalid"@
            &&& answer(
                p,
                CodeOutcome::LockedOut { retry_after_secs: secs },
                Some(token),
                Some(device),
            ) matches LoginView::Refused(r) && r.status == 429 && r.error == "locked_out"@
            &&& answer(p, CodeOutcome::Accepted, None, Some(device)) is Refused
        }),
{
    let a = cookie_line(SESSION_COOKIE@, token, p.session_ttl_secs);
    let b = cookie_line(DEVICE_COOKIE@, device, p.device_ttl_secs);
    assert(seq![a] + seq![b] =~= seq![a, b]);
    assert(seq![a] + Seq::<Seq<char>>::empty() =~= seq![a]);
}

/// What someone signs in with: a code that is not blank, whatever password comes
/// with it; else a password that is not empty; else nothing.
pub proof fn a_code_goes_before_a_password(code: &str, password: &str, blank: &str)
    requires
        exists|i: int| 0 <= i < code@.len() && !text::is_space(#[trigger] code@[i]),
        forall|i: int| 0 <= i < blank@.len() ==> text::is_space(#[trigger] blank@[i]),
        password@.len() > 0,
    ensures
        credential(Some(code), Some(password)) == Credential::Code(code@),
        credential(Some(code), None) == Credential::Code(code@),
        credential(Some(blank), Some(password)) == Credential::Password(password@),
        credential(None, Some(password)) == Credential::Password(password@),
        credential(Some(blank), None) == Credential::Nothing,
        credential(None, None) == Credential::Nothing,
{
    lemma_blank(code@);
    lemma_blank(blank@);
}

proof fn lemma_blank(s: Seq<char>)
    ensures
        text::trim(s).len() == 0 <==> forall|i: int|
            0 <= i < s.len() ==> text::is_space(#[trigger] s[i]),
{
    text::lemma_lead(s);
    let l = text::lead(s);
    let t = text::trim_start(s);
    text::lemma_trim_end(t);
    if text::trim(s).len() == 0 {
        assert forall|i: int| 0 <= i < s.len() implies text::is_space(#[trigger] s[i]) by {
            if i >= l {
                assert(t[i - l] == s[i]);
            }
        }
    } else {
        let n = text::trim(s).len() - 1;
        assert(text::trim(s)[n] == t[n]);
        assert(t[n] == s[l + n]);
        assert(!text::is_space(s[l + n]));
    }
}

/// What the dashboard shows of memory, in mebibytes. The phantom is what the
/// kernel advertises beyond what is honest.
pub proof fn the_phantom_is_what_is_advertised_beyond_the_honest(
    v: Vitals,
    mem: MemorySnapshot,
    stall_full: u64,
    tier: Tier,
    vram: Option<VramVitals>,
)
    requires
        tells(v, mem, stall_full, tier, vram),
        mem.available_kb + mem.swap_free_kb <= u64::MAX,
    ensures
        v.honest_headroom_mib == mem.honest_headroom_kb / 1024,
        mem.honest_headroom_kb <= mem.available_kb + mem.swap_free_kb ==> v.phantom_headroom_mib == (
        mem.available_kb + mem.swap_free_kb - mem.honest_headroom_kb) / 1024,
        mem.honest_headroom_kb > mem.available_kb + mem.swap_free_kb ==> v.phantom_headroom_mib
            == 0,
        v.total_mib == mem.total_kb / 1024,
        v.available_mib == mem.available_kb / 1024,
        v.swap_total_mib == mem.swap_total_kb / 1024,
        v.swap_free_mib == mem.swap_free_kb / 1024,
        v.zram_cost_mib == mem.zram_cost_kb / 1024,
        v.stall_full == stall_full,
{
}

/// What the dashboard shows of a filesystem: what is free to those without
/// privileges, and what part of the whole is not.
pub proof fn a_filesystem_is_shown_by_what_is_free(v: DiskVitals, d: MountUsage)
    requires
        tells_disk(v, d),
        d.available_kb <= d.total_kb,
        d.inodes_free <= d.inodes_total,
    ensures
        v.path@ == d.path@,
        v.free_mib == d.available_kb / 1024,
        v.total_mib == d.total_kb / 1024,
        d.total_kb > 0 ==> v.used_pct * d.total_kb <= (d.total_kb - d.available_kb) * 100_000 < (
        v.used_pct + 1) * d.total_kb,
        d.inodes_total > 0 ==> v.inodes_used_pct * d.inodes_total <= (d.inodes_total - d.inodes_free)
            * 100_000 < (v.inodes_used_pct + 1) * d.inodes_total,
        d.inodes_total == 0 ==> v.inodes_used_pct == 0,
{
    crate::sensors::disk::a_share_is_the_part_of_the_whole(
        d.total_kb - d.available_kb,
        d.total_kb as int,
    );
    crate::sensors::disk::a_share_is_the_part_of_the_whole(
        d.inodes_total - d.inodes_free,
        d.inodes_total as int,
    );
}

/// Signing in follows what came of the attempt: tokens for an accepted one, the
/// device's too where it was a code; none for any other. Without a code or a
/// password nothing is tried.
pub proof fn tokens_are_for_the_accepted(
    auth: &Authenticator,
    code: Seq<char>,
    word: Seq<char>,
    device: Option<Seq<char>>,
    now: u64,
)
    ensures
        ({
            let seen = auth::looked_at(auth.secret(), code, auth.rules(), now);
            let by_code = auth::code_step(auth.rules(), auth@, seen, now);
            let asked = auth::prompt(auth.key(), auth@, device, now);
            let right = auth::password_matches(auth@, word);
            let by_word = auth::password_step(auth.rules(), auth@, asked, right, now);
            let session = auth::session_token(auth.key(), auth.rules(), now);
            let enrolled = auth::device_token(auth.key(), auth.rules(), now);
            let from_code = signed_in(auth, Credential::Code(code), device, now);
            let from_word = signed_in(auth, Credential::Password(word), device, now);
            &&& from_code.0 == by_code.0
            &&& from_word.0 == by_word.0
            &&& by_code.1 == CodeOutcome::Accepted ==> from_code.1 == answer(
                auth.rules(),
                by_code.1,
                Some(session),
                Some(enrolled),
            )
            &&& by_code.1 != CodeOutcome::Accepted ==> from_code.1 == answer(
                auth.rules(),
                by_code.1,
                None,
                None,
            )
            &&& by_word.1 == CodeOutcome::Accepted ==> from_word.1 == answer(
                auth.rules(),
                by_word.1,
                Some(session),
                None,
            )
            &&& by_word.1 != CodeOutcome::Accepted ==> from_word.1 == answer(
                auth.rules(),
                by_word.1,
                None,
                None,
            )
            &&& signed_in(auth, Credential::Nothing, device, now).0 == auth@
            &&& signed_in(auth, Credential::Nothing, device, now).1 matches LoginView::Refused(r)
                && r.status == 400 && r.error == "no_credential"@
        }),
{
}

} // verus!
