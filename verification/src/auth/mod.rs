//! Authentication.
//!
//! Two factors, but not on a timer.
//!
//! | Step | Factor | Frequency |
//! |---|---|---|
//! | Enrol this browser | authenticator code | once per device |
//! | Unlock | password | when the session lapses |
//! | Use | the session | no interruption |
//!
//! The **device token** proves a browser once belonged to the operator. On its
//! own it authorises nothing — it only makes the quick unlock available, so a
//! stolen laptop still needs the password. The **session token** is what
//! actually authorises requests, and it does not expire mid-use.
//!
//! Two tiers remain, and neither involves a clock:
//!
//! | Tier | Requires |
//! |---|---|
//! | `Public` | tailnet reachability only — health, the login page |
//! | `Session` | an unlocked session |
//!
//! The network boundary and the auth boundary stay independent: the server
//! binds the tailnet interface, so a failure of this module does not expose
//! Prism to the internet, and vice versa.

use crate::text;
use session::{KindClaims, SessionKey, TokenKind};
use totp::VerifyOutcome;
use vstd::prelude::*;

pub mod console;
pub mod crypto;
pub mod password;
pub mod session;
pub mod totp;

verus! {

/// What an endpoint demands of its caller.
#[derive(Debug, Clone, Copy, PartialEq, Eq, PartialOrd, Ord, Structural)]
pub enum Sensitivity {
    Public,
    Session,
}

#[derive(Debug, Clone, Copy)]
pub struct AuthPolicy {
    /// How long a browser stays enrolled.
    pub device_ttl_secs: u64,
    /// How long an unlocked session lasts.
    pub session_ttl_secs: u64,
    /// TOTP steps of clock tolerance either side of now.
    pub totp_skew_steps: u64,
    /// Failed attempts before lockout.
    pub max_failures: u32,
    /// How long a lockout lasts.
    pub lockout_secs: u64,
}

impl Default for AuthPolicy {
    fn default() -> (r: Self)
        ensures
            r == (AuthPolicy {
                device_ttl_secs: 31_536_000,
                session_ttl_secs: 2_592_000,
                totp_skew_steps: 1,
                max_failures: 5,
                lockout_secs: 300,
            }),
    {
        AuthPolicy {
            // A year. Enrolling a device is a deliberate act with the phone in
            // hand; making it expire quietly would reintroduce the very
            // interruption this design removes.
            device_ttl_secs: 31_536_000,
            // 30 days. Long enough that the password is rare, short enough that
            // a forgotten browser does not stay unlocked indefinitely.
            session_ttl_secs: 2_592_000,
            // ±30s of drift. Each extra step is another simultaneously-valid
            // code, so this stays tight.
            totp_skew_steps: 1,
            max_failures: 5,
            lockout_secs: 300,
        }
    }
}

#[derive(Debug, Clone, Copy, PartialEq, Eq, Structural)]
pub enum AuthOutcome {
    Granted,
    /// No valid session. The client decides what to show: a password prompt if
    /// the device is enrolled, otherwise an authenticator code.
    Unauthenticated,
    /// Too many failures; retry later.
    LockedOut { retry_after_secs: u64 },
}

/// What the login screen should ask for.
#[derive(Debug, Clone, Copy, PartialEq, Eq, Structural)]
pub enum LoginPrompt {
    /// This browser is enrolled and a password is set: ask for the password.
    Password,
    /// Not enrolled, or no password set: ask for an authenticator code.
    Code,
}

#[derive(Debug, Clone, Copy, PartialEq, Eq, Structural)]
pub enum CodeOutcome {
    Accepted,
    Rejected,
    /// Correct code, but already used. A valid code is single-use within its
    /// step, so an intercepted code cannot be replayed inside its 30s life.
    Replayed,
    LockedOut { retry_after_secs: u64 },
}

// ---------------------------------------------------------------------------
// What signing in means
// ---------------------------------------------------------------------------

/// What changes as people sign in.
#[verifier::ext_equal]
pub struct AuthState {
    /// The hash of the unlock password, when one is set.
    pub password: Option<Seq<char>>,
    /// The counters of the codes already spent.
    pub consumed: Set<u64>,
    /// Failures since the last success or lockout.
    pub failures: u32,
    pub locked_until: u64,
}

/// How long everything stays refused, where it is.
pub open spec fn locked(s: AuthState, now: u64) -> Option<u64> {
    if s.locked_until > now {
        Some((s.locked_until - now) as u64)
    } else {
        None
    }
}

/// One failure more: enough of them lock everything for a while.
pub open spec fn failed(p: AuthPolicy, s: AuthState, now: u64) -> (AuthState, CodeOutcome) {
    if s.failures + 1 >= p.max_failures {
        (
            AuthState { failures: 0, locked_until: (now + p.lockout_secs) as u64, ..s },
            CodeOutcome::LockedOut { retry_after_secs: p.lockout_secs },
        )
    } else {
        (AuthState { failures: (s.failures + 1) as u32, ..s }, CodeOutcome::Rejected)
    }
}

/// A success forgets all failures.
pub open spec fn cleared(s: AuthState) -> AuthState {
    AuthState { failures: 0, locked_until: 0, ..s }
}

/// Counters below this can no longer be presented.
pub open spec fn spent_floor(p: AuthPolicy, now: u64) -> u64 {
    totp::floor_step(now, (p.totp_skew_steps + 1) as u64)
}

pub open spec fn pruned(p: AuthPolicy, s: AuthState, now: u64) -> AuthState {
    AuthState { consumed: s.consumed.filter(|c: u64| c >= spent_floor(p, now)), ..s }
}

/// A code that was looked at while nothing is locked.
pub open spec fn code_judged(p: AuthPolicy, s: AuthState, seen: VerifyOutcome, now: u64) -> (
    AuthState,
    CodeOutcome,
) {
    match seen {
        VerifyOutcome::Invalid => failed(p, s, now),
        VerifyOutcome::Valid { counter } => {
            let t = pruned(p, s, now);
            if t.consumed.contains(counter) {
                // A correct but already-spent code is not a failed guess, so it
                // must not count toward lockout — otherwise a replayed code
                // could be used to lock the real operator out.
                (t, CodeOutcome::Replayed)
            } else {
                (
                    cleared(AuthState { consumed: t.consumed.insert(counter), ..t }),
                    CodeOutcome::Accepted,
                )
            }
        },
    }
}

/// A code, given what was seen in it.
pub open spec fn code_step(p: AuthPolicy, s: AuthState, seen: VerifyOutcome, now: u64) -> (
    AuthState,
    CodeOutcome,
) {
    match locked(s, now) {
        Some(n) => (s, CodeOutcome::LockedOut { retry_after_secs: n }),
        None => code_judged(p, s, seen, now),
    }
}

/// What the login screen asks for.
pub open spec fn prompt(key: Seq<u8>, s: AuthState, device: Option<Seq<char>>, now: u64) -> LoginPrompt {
    if s.password is Some && device is Some && enrolled(key, device->0, now) {
        LoginPrompt::Password
    } else {
        LoginPrompt::Code
    }
}

/// A token that proves an enrolled device.
pub open spec fn enrolled(key: Seq<u8>, token: Seq<char>, now: u64) -> bool {
    match session::validated_kind(key, token, now) {
        Ok(c) => c.kind == TokenKind::Device,
        Err(_) => false,
    }
}

/// A token that proves an unlocked session.
pub open spec fn unlocked(key: Seq<u8>, token: Seq<char>, now: u64) -> bool {
    match session::validated_kind(key, token, now) {
        Ok(c) => c.kind == TokenKind::Session,
        Err(_) => false,
    }
}

/// A password, given what is asked for and whether it matches.
pub open spec fn password_step(
    p: AuthPolicy,
    s: AuthState,
    asked: LoginPrompt,
    matches: bool,
    now: u64,
) -> (AuthState, CodeOutcome) {
    match locked(s, now) {
        Some(n) => (s, CodeOutcome::LockedOut { retry_after_secs: n }),
        None => if asked != LoginPrompt::Password {
            (s, CodeOutcome::Rejected)
        } else if matches {
            (cleared(s), CodeOutcome::Accepted)
        } else {
            failed(p, s, now)
        },
    }
}

/// Whether a request may reach what it asks for.
pub open spec fn authorized(
    key: Seq<u8>,
    s: AuthState,
    token: Option<Seq<char>>,
    required: Sensitivity,
    now: u64,
) -> AuthOutcome {
    if required == Sensitivity::Public {
        AuthOutcome::Granted
    } else {
        match locked(s, now) {
            Some(n) => AuthOutcome::LockedOut { retry_after_secs: n },
            None => if token is Some && unlocked(key, token->0, now) {
                AuthOutcome::Granted
            } else {
                AuthOutcome::Unauthenticated
            },
        }
    }
}

/// The session token given out at a time.
pub open spec fn session_token(key: Seq<u8>, p: AuthPolicy, now: u64) -> Seq<char> {
    session::issued_kind(
        key,
        KindClaims { expires_at: (now + p.session_ttl_secs) as u64, kind: TokenKind::Session },
    )
}

/// The device token given out at a time.
pub open spec fn device_token(key: Seq<u8>, p: AuthPolicy, now: u64) -> Seq<char> {
    session::issued_kind(
        key,
        KindClaims { expires_at: (now + p.device_ttl_secs) as u64, kind: TokenKind::Device },
    )
}

/// The times that unlocking counts up to from `now` can be written down.
pub open spec fn tells_unlock(p: AuthPolicy, now: u64) -> bool {
    &&& now + p.session_ttl_secs <= u64::MAX
    &&& now + p.lockout_secs <= u64::MAX
}

/// The times that a code makes a policy count up to from `now` can be written
/// down.
pub open spec fn tells_time(p: AuthPolicy, now: u64) -> bool {
    &&& tells_unlock(p, now)
    &&& now + p.device_ttl_secs <= u64::MAX
    &&& p.totp_skew_steps < u64::MAX
}

/// What is seen in a code.
pub open spec fn looked_at(secret: Seq<u8>, code: Seq<char>, p: AuthPolicy, now: u64) -> VerifyOutcome {
    match totp::verified(secret, code, now, p.totp_skew_steps) {
        Some(counter) => VerifyOutcome::Valid { counter },
        None => VerifyOutcome::Invalid,
    }
}

/// A password is the one whose hash is stored.
pub open spec fn password_matches(s: AuthState, word: Seq<char>) -> bool {
    s.password is Some && password::matches_hash(word, s.password->0)
}

/// What does not change as people sign in.
pub struct Setup {
    pub key: Seq<u8>,
    pub secret: Seq<u8>,
    pub rules: AuthPolicy,
}

/// An attempt to sign in.
pub enum Attempt {
    Code { code: Seq<char>, now: u64 },
    Password { word: Seq<char>, device: Option<Seq<char>>, now: u64 },
}

impl Attempt {
    /// When it is made.
    pub open spec fn time(self) -> u64 {
        match self {
            Attempt::Code { now, .. } => now,
            Attempt::Password { now, .. } => now,
        }
    }
}

/// Where an attempt leads, and what comes of it.
pub open spec fn tried(u: Setup, s: AuthState, a: Attempt) -> (AuthState, CodeOutcome) {
    match a {
        Attempt::Code { code, now } => code_step(
            u.rules,
            s,
            looked_at(u.secret, code, u.rules, now),
            now,
        ),
        Attempt::Password { word, device, now } => password_step(
            u.rules,
            s,
            prompt(u.key, s, device, now),
            password_matches(s, word),
            now,
        ),
    }
}

pub open spec fn seen(token: Option<&str>) -> Option<Seq<char>> {
    match token {
        Some(t) => Some(t@),
        None => None,
    }
}

// ---------------------------------------------------------------------------
// The authenticator
// ---------------------------------------------------------------------------

pub struct Authenticator {
    key: SessionKey,
    secret: Vec<u8>,
    policy: AuthPolicy,
    /// Argon2 hash of the unlock password, when one is set.
    password_hash: Option<String>,
    /// Counters already spent, none twice. Pruned as time advances.
    consumed: Vec<u64>,
    failures: u32,
    locked_until: u64,
}

impl View for Authenticator {
    type V = AuthState;

    closed spec fn view(&self) -> AuthState {
        AuthState {
            password: text::opt(self.password_hash),
            consumed: self.consumed@.to_set(),
            failures: self.failures,
            locked_until: self.locked_until,
        }
    }
}

impl Authenticator {
    pub closed spec fn key(&self) -> Seq<u8> {
        self.key.bytes()
    }

    pub closed spec fn secret(&self) -> Seq<u8> {
        self.secret@
    }

    pub closed spec fn rules(&self) -> AuthPolicy {
        self.policy
    }

    /// A lockout comes no later than it is due.
    pub closed spec fn wf(&self) -> bool {
        self.failures == 0 || self.failures < self.policy.max_failures
    }

    /// What does not change as people sign in.
    pub open spec fn setup(&self) -> Setup {
        Setup { key: self.key(), secret: self.secret(), rules: self.rules() }
    }

    pub open spec fn same_setup(&self, other: &Authenticator) -> bool {
        &&& self.key() == other.key()
        &&& self.secret() == other.secret()
        &&& self.rules() == other.rules()
    }

    pub fn new(key: SessionKey, secret: Vec<u8>, policy: AuthPolicy) -> (r: Self)
        ensures
            r.wf(),
            r.key() == key.bytes(),
            r.secret() == secret@,
            r.rules() == policy,
            r@ == (AuthState {
                password: None,
                consumed: Set::empty(),
                failures: 0,
                locked_until: 0,
            }),
    {
        let r = Authenticator {
            key,
            secret,
            policy,
            password_hash: None,
            consumed: Vec::new(),
            failures: 0,
            locked_until: 0,
        };
        assert(r.consumed@.to_set() =~= Set::empty());
        r
    }

    pub fn with_password_hash(self, hash: Option<String>) -> (r: Self)
        requires
            self.wf(),
        ensures
            r.wf(),
            r.same_setup(&self),
            r@ == (AuthState { password: text::opt(hash), ..self@ }),
    {
        Authenticator {
            key: self.key,
            secret: self.secret,
            policy: self.policy,
            password_hash: hash,
            consumed: self.consumed,
            failures: self.failures,
            locked_until: self.locked_until,
        }
    }

    pub fn has_password(&self) -> (r: bool)
        ensures
            r == (self@.password is Some),
    {
        self.password_hash.is_some()
    }

    pub fn policy(&self) -> (r: &AuthPolicy)
        ensures
            *r == self.rules(),
    {
        &self.policy
    }

    /// What the login screen should ask this caller for.
    ///
    /// A password prompt only appears once the browser is enrolled *and* a
    /// password exists; otherwise the code is the only way in, which keeps a
    /// fresh device from being offered a shortcut it cannot use.
    pub fn prompt_for(&self, device_token: Option<&str>, now: u64) -> (r: LoginPrompt)
        ensures
            r == prompt(self.key(), self@, seen(device_token), now),
    {
        if !self.has_password() {
            return LoginPrompt::Code;
        }
        match device_token {
            None => LoginPrompt::Code,
            Some(t) => match self.key.validate_kind(t, now) {
                Ok(claims) => {
                    if claims.kind == TokenKind::Device {
                        LoginPrompt::Password
                    } else {
                        LoginPrompt::Code
                    }
                },
                Err(_) => LoginPrompt::Code,
            },
        }
    }

    /// Unlock with the password. Requires an enrolled device.
    ///
    /// Without that requirement the password would be a single factor reachable
    /// from any browser on the tailnet, which is materially weaker than what it
    /// replaced.
    pub fn submit_password(&mut self, password: &str, device_token: Option<&str>, now: u64) -> (r: (
        CodeOutcome,
        Option<String>,
    ))
        requires
            old(self).wf(),
            tells_unlock(old(self).rules(), now),
        ensures
            final(self).wf(),
            final(self).same_setup(old(self)),
            (final(self)@, r.0) == tried(
                old(self).setup(),
                old(self)@,
                (Attempt::Password { word: password@, device: seen(device_token), now }),
            ),
            text::opt(r.1) == (if r.0 == CodeOutcome::Accepted {
                Some(session_token(old(self).key(), old(self).rules(), now))
            } else {
                None
            }),
    {
        let asked = self.prompt_for(device_token, now);
        if self.locked_for(now).is_some() || asked != LoginPrompt::Password {
            return self.password_checked(asked, false, now);
        }
        let matches = match &self.password_hash {
            Some(stored) => password::verify(password, stored.as_str()),
            None => false,
        };
        self.password_checked(asked, matches, now)
    }

    /// What comes of a password, given what was asked for and whether it
    /// matches.
    pub fn password_checked(&mut self, asked: LoginPrompt, matches: bool, now: u64) -> (r: (
        CodeOutcome,
        Option<String>,
    ))
        requires
            old(self).wf(),
            tells_unlock(old(self).rules(), now),
        ensures
            final(self).wf(),
            final(self).same_setup(old(self)),
            (final(self)@, r.0) == password_step(
                old(self).rules(),
                old(self)@,
                asked,
                matches,
                now,
            ),
            text::opt(r.1) == (if r.0 == CodeOutcome::Accepted {
                Some(session_token(old(self).key(), old(self).rules(), now))
            } else {
                None
            }),
    {
        match self.locked_for(now) {
            Some(retry) => {
                return (CodeOutcome::LockedOut { retry_after_secs: retry }, None);
            },
            None => {},
        }
        if asked != LoginPrompt::Password {
            return (CodeOutcome::Rejected, None);
        }
        if matches {
            self.reset_failures();
            (CodeOutcome::Accepted, Some(self.issue_session(now)))
        } else {
            (self.record_failure(now), None)
        }
    }

    fn issue_session(&self, now: u64) -> (r: String)
        requires
            now + self.rules().session_ttl_secs <= u64::MAX,
        ensures
            r@ == session_token(self.key(), self.rules(), now),
    {
        self.key.issue_kind(
            KindClaims {
                expires_at: now + self.policy.session_ttl_secs,
                kind: TokenKind::Session,
            },
        )
    }

    fn issue_device(&self, now: u64) -> (r: String)
        requires
            now + self.rules().device_ttl_secs <= u64::MAX,
        ensures
            r@ == device_token(self.key(), self.rules(), now),
    {
        self.key.issue_kind(
            KindClaims { expires_at: now + self.policy.device_ttl_secs, kind: TokenKind::Device },
        )
    }

    /// Submit a TOTP code. On success, enrol the device *and* unlock a session.
    ///
    /// Returns `(outcome, session, device)`. Doing both at once means entering a
    /// code is a complete sign-in, not a step toward one.
    pub fn submit_code(&mut self, code: &str, now: u64) -> (r: (
        CodeOutcome,
        Option<String>,
        Option<String>,
    ))
        requires
            old(self).wf(),
            tells_time(old(self).rules(), now),
        ensures
            final(self).wf(),
            final(self).same_setup(old(self)),
            (final(self)@, r.0) == tried(
                old(self).setup(),
                old(self)@,
                (Attempt::Code { code: code@, now }),
            ),
            text::opt(r.1) == (if r.0 == CodeOutcome::Accepted {
                Some(session_token(old(self).key(), old(self).rules(), now))
            } else {
                None
            }),
            text::opt(r.2) == (if r.0 == CodeOutcome::Accepted {
                Some(device_token(old(self).key(), old(self).rules(), now))
            } else {
                None
            }),
    {
        if self.locked_for(now).is_some() {
            return self.code_checked(VerifyOutcome::Invalid, now);
        }
        let looked = totp::verify(
            self.secret.as_slice(),
            code,
            now,
            self.policy.totp_skew_steps,
        );
        self.code_checked(looked, now)
    }

    /// What comes of a code, given what was seen in it.
    pub fn code_checked(&mut self, looked: VerifyOutcome, now: u64) -> (r: (
        CodeOutcome,
        Option<String>,
        Option<String>,
    ))
        requires
            old(self).wf(),
            tells_time(old(self).rules(), now),
        ensures
            final(self).wf(),
            final(self).same_setup(old(self)),
            (final(self)@, r.0) == code_step(old(self).rules(), old(self)@, looked, now),
            text::opt(r.1) == (if r.0 == CodeOutcome::Accepted {
                Some(session_token(old(self).key(), old(self).rules(), now))
            } else {
                None
            }),
            text::opt(r.2) == (if r.0 == CodeOutcome::Accepted {
                Some(device_token(old(self).key(), old(self).rules(), now))
            } else {
                None
            }),
    {
        match self.locked_for(now) {
            Some(retry) => {
                return (CodeOutcome::LockedOut { retry_after_secs: retry }, None, None);
            },
            None => {},
        }
        match looked {
            VerifyOutcome::Invalid => (self.record_failure(now), None, None),
            VerifyOutcome::Valid { counter } => {
                let ghost start = self@;
                // Prune counters that can no longer be presented anyway.
                let floor: u64 = totp::counter_at(now).saturating_sub(
                    self.policy.totp_skew_steps + 1,
                );
                let mut kept: Vec<u64> = Vec::new();
                let mut spent = false;
                let mut i: usize = 0;
                while i < self.consumed.len()
                    invariant
                        i <= self.consumed@.len(),
                        forall|c: u64|
                            #![trigger kept@.contains(c)]
                            kept@.contains(c) <==> (c >= floor && self.consumed@.take(
                                i as int,
                            ).contains(c)),
                        spent == kept@.contains(counter),
                    decreases self.consumed@.len() - i,
                {
                    let c = self.consumed[i];
                    let ghost before = kept@;
                    let ghost t = self.consumed@.take(i as int);
                    let ghost u = self.consumed@.take(i + 1);
                    assert(u =~= t.push(c));
                    if c >= floor {
                        kept.push(c);
                        if c == counter {
                            spent = true;
                        }
                    }
                    proof {
                        assert forall|x: u64| u.contains(x) <==> (t.contains(x) || x == c) by {
                            if t.contains(x) {
                                let k = choose|k: int| 0 <= k < t.len() && t[k] == x;
                                assert(u[k] == x);
                            }
                            assert(u[i as int] == c);
                        }
                        assert forall|x: u64|
                            kept@.contains(x) <==> (before.contains(x) || (c >= floor && x == c)) by {
                            if before.contains(x) {
                                let k = choose|k: int| 0 <= k < before.len() && before[k] == x;
                                assert(kept@[k] == x);
                            }
                            if c >= floor {
                                assert(kept@[before.len() as int] == c);
                            }
                        }
                        assert forall|x: u64|
                            #![trigger kept@.contains(x)]
                            kept@.contains(x) <==> (x >= floor && u.contains(x)) by {
                            assert(before.contains(x) <==> (x >= floor && t.contains(x)));
                        }
                    }
                    i += 1;
                }
                assert(self.consumed@.take(i as int) =~= self.consumed@);
                let ghost t = pruned(self.policy, start, now);
                assert(kept@.to_set() =~= t.consumed) by {
                    assert forall|c: u64| kept@.contains(c) <==> t.consumed.contains(c) by {}
                }
                if spent {
                    self.consumed = kept;
                    return (CodeOutcome::Replayed, None, None);
                }
                let ghost before = kept@;
                kept.push(counter);
                proof {
                    assert forall|x: u64|
                        kept@.contains(x) <==> (before.contains(x) || x == counter) by {
                        if before.contains(x) {
                            let k = choose|k: int| 0 <= k < before.len() && before[k] == x;
                            assert(kept@[k] == x);
                        }
                        assert(kept@[before.len() as int] == counter);
                    }
                    assert(kept@.to_set() =~= t.consumed.insert(counter));
                }
                self.consumed = kept;
                self.reset_failures();
                (
                    CodeOutcome::Accepted,
                    Some(self.issue_session(now)),
                    Some(self.issue_device(now)),
                )
            },
        }
    }

    /// Decide whether a request carrying `token` may reach `required`.
    pub fn authorize(&self, token: Option<&str>, required: Sensitivity, now: u64) -> (r: AuthOutcome)
        ensures
            r == authorized(self.key(), self@, seen(token), required, now),
    {
        if required == Sensitivity::Public {
            return AuthOutcome::Granted;
        }
        match self.locked_for(now) {
            Some(retry) => {
                return AuthOutcome::LockedOut { retry_after_secs: retry };
            },
            None => {},
        }
        match token {
            None => AuthOutcome::Unauthenticated,
            Some(t) => match self.key.validate_kind(t, now) {
                // Only a session token authorises. A device token proves
                // enrolment and nothing more, or a stolen laptop would need no
                // password.
                Ok(claims) => match claims.kind {
                    TokenKind::Session => AuthOutcome::Granted,
                    TokenKind::Device => AuthOutcome::Unauthenticated,
                },
                Err(_) => AuthOutcome::Unauthenticated,
            },
        }
    }

    fn locked_for(&self, now: u64) -> (r: Option<u64>)
        ensures
            r == locked(self@, now),
    {
        if self.locked_until > now {
            Some(self.locked_until - now)
        } else {
            None
        }
    }

    fn record_failure(&mut self, now: u64) -> (r: CodeOutcome)
        requires
            old(self).wf(),
            now + old(self).rules().lockout_secs <= u64::MAX,
        ensures
            final(self).wf(),
            final(self).same_setup(old(self)),
            (final(self)@, r) == failed(old(self).rules(), old(self)@, now),
    {
        let count: u32 = self.failures + 1;
        if count >= self.policy.max_failures {
            self.locked_until = now + self.policy.lockout_secs;
            self.failures = 0;
            return CodeOutcome::LockedOut { retry_after_secs: self.policy.lockout_secs };
        }
        self.failures = count;
        CodeOutcome::Rejected
    }

    fn reset_failures(&mut self)
        requires
            old(self).wf(),
        ensures
            final(self).wf(),
            final(self).same_setup(old(self)),
            final(self)@ == cleared(old(self)@),
    {
        self.failures = 0;
        self.locked_until = 0;
    }
}

// ---------------------------------------------------------------------------
// Laws
// ---------------------------------------------------------------------------

/// A device token alone authorises nothing: neither the one that signing in
/// gives, nor any other.
pub proof fn a_device_token_authorises_nothing(
    key: Seq<u8>,
    s: AuthState,
    token: Seq<char>,
    now: u64,
)
    requires
        enrolled(key, token, now),
    ensures
        authorized(key, s, Some(token), Sensitivity::Session, now) != AuthOutcome::Granted,
{
}

/// The session given out at sign-in authorises until its lifetime is over and
/// not after, with no interruption in between.
pub proof fn a_session_lasts_its_lifetime(
    key: Seq<u8>,
    p: AuthPolicy,
    s: AuthState,
    now: u64,
    later: u64,
)
    requires
        now + p.session_ttl_secs <= u64::MAX,
        locked(s, later) is None,
    ensures
        later < now + p.session_ttl_secs ==> authorized(
            key,
            s,
            Some(session_token(key, p, now)),
            Sensitivity::Session,
            later,
        ) == AuthOutcome::Granted,
        later >= now + p.session_ttl_secs ==> authorized(
            key,
            s,
            Some(session_token(key, p, now)),
            Sensitivity::Session,
            later,
        ) == AuthOutcome::Unauthenticated,
{
    session::a_kind_token_gives_back_its_claims(
        key,
        KindClaims { expires_at: (now + p.session_ttl_secs) as u64, kind: TokenKind::Session },
        later,
    );
}

/// The device token given out at sign-in never authorises, neither while the
/// device is enrolled nor after.
pub proof fn a_device_token_is_no_session(
    key: Seq<u8>,
    p: AuthPolicy,
    s: AuthState,
    now: u64,
    later: u64,
)
    requires
        now + p.device_ttl_secs <= u64::MAX,
        locked(s, later) is None,
    ensures
        authorized(key, s, Some(device_token(key, p, now)), Sensitivity::Session, later)
            == AuthOutcome::Unauthenticated,
{
    session::a_kind_token_gives_back_its_claims(
        key,
        KindClaims { expires_at: (now + p.device_ttl_secs) as u64, kind: TokenKind::Device },
        later,
    );
}

/// The device token given out at sign-in makes the password prompt available,
/// once a password is set, for as long as the device stays enrolled.
pub proof fn signing_in_enrols_the_device(
    key: Seq<u8>,
    p: AuthPolicy,
    s: AuthState,
    now: u64,
    later: u64,
)
    requires
        now + p.device_ttl_secs <= u64::MAX,
        later < now + p.device_ttl_secs,
    ensures
        enrolled(key, device_token(key, p, now), later),
        s.password is Some ==> prompt(key, s, Some(device_token(key, p, now)), later)
            == LoginPrompt::Password,
{
    session::a_kind_token_gives_back_its_claims(
        key,
        KindClaims { expires_at: (now + p.device_ttl_secs) as u64, kind: TokenKind::Device },
        later,
    );
}

/// The password is useless without an enrolled device: it is never accepted,
/// and nothing changes.
pub proof fn the_password_needs_an_enrolled_device(
    key: Seq<u8>,
    p: AuthPolicy,
    s: AuthState,
    device: Option<Seq<char>>,
    matches: bool,
    now: u64,
)
    requires
        device matches Some(t) ==> !enrolled(key, t, now),
    ensures
        password_step(p, s, prompt(key, s, device, now), matches, now).1 != CodeOutcome::Accepted,
        password_step(p, s, prompt(key, s, device, now), matches, now).0 == s,
{
}

/// With no password set, the code is the only way in.
pub proof fn without_a_password_only_a_code_helps(
    key: Seq<u8>,
    p: AuthPolicy,
    s: AuthState,
    device: Option<Seq<char>>,
    matches: bool,
    now: u64,
)
    requires
        s.password is None,
    ensures
        prompt(key, s, device, now) == LoginPrompt::Code,
        password_step(p, s, prompt(key, s, device, now), matches, now).1 != CodeOutcome::Accepted,
{
}

/// A code is spent once: after it is accepted, its counter counts as consumed
/// for as long as any clock within the skew could still produce it.
pub proof fn an_accepted_code_is_spent(p: AuthPolicy, s: AuthState, counter: u64, now: u64)
    requires
        code_step(p, s, VerifyOutcome::Valid { counter }, now).1 == CodeOutcome::Accepted,
    ensures
        code_step(p, s, VerifyOutcome::Valid { counter }, now).0.consumed.contains(counter),
{
}

/// A consumed counter stays consumed through every further attempt while it is
/// within the skew, and a code that shows it is never accepted.
pub proof fn a_spent_code_stays_spent(
    p: AuthPolicy,
    s: AuthState,
    counter: u64,
    attempt: VerifyOutcome,
    now: u64,
)
    requires
        p.totp_skew_steps < u64::MAX,
        s.consumed.contains(counter),
        counter >= totp::floor_step(now, p.totp_skew_steps),
    ensures
        code_step(p, s, attempt, now).0.consumed.contains(counter),
        code_step(p, s, VerifyOutcome::Valid { counter }, now).1 != CodeOutcome::Accepted,
        locked(s, now) is None ==> code_step(p, s, VerifyOutcome::Valid { counter }, now).1
            == CodeOutcome::Replayed,
{
}

/// Passwords never touch the spent codes.
pub proof fn passwords_leave_codes_alone(
    p: AuthPolicy,
    s: AuthState,
    asked: LoginPrompt,
    matches: bool,
    now: u64,
)
    ensures
        password_step(p, s, asked, matches, now).0.consumed == s.consumed,
{
}

/// A replayed code does not count toward lockout.
pub proof fn replay_does_not_count(p: AuthPolicy, s: AuthState, counter: u64, now: u64)
    requires
        code_step(p, s, VerifyOutcome::Valid { counter }, now).1 == CodeOutcome::Replayed,
    ensures
        code_step(p, s, VerifyOutcome::Valid { counter }, now).0.failures == s.failures,
        code_step(p, s, VerifyOutcome::Valid { counter }, now).0.locked_until == s.locked_until,
{
}

/// Wrong codes and wrong passwords count alike, toward one lockout.
pub proof fn failures_are_shared(p: AuthPolicy, s: AuthState, now: u64)
    ensures
        code_step(p, s, VerifyOutcome::Invalid, now) == password_step(
            p,
            s,
            LoginPrompt::Password,
            false,
            now,
        ),
{
}

/// The state after attempts, one after another.
pub open spec fn after(u: Setup, s: AuthState, h: Seq<Attempt>) -> AuthState
    decreases h.len(),
{
    if h.len() == 0 {
        s
    } else {
        tried(u, after(u, s, h.drop_last()), h.last()).0
    }
}

/// What came of one of the attempts.
pub open spec fn outcome(u: Setup, s: AuthState, h: Seq<Attempt>, k: int) -> CodeOutcome {
    tried(u, after(u, s, h.take(k)), h[k]).1
}

/// No attempt is made before an earlier one.
pub open spec fn in_order(h: Seq<Attempt>) -> bool {
    forall|i: int, j: int|
        0 <= i < j < h.len() ==> (#[trigger] h[i]).time() <= (#[trigger] h[j]).time()
}

/// An attempt shows the code of a counter.
pub open spec fn shows(u: Setup, a: Attempt, counter: u64) -> bool {
    a matches Attempt::Code { code, now } && looked_at(u.secret, code, u.rules, now) == (
    VerifyOutcome::Valid { counter })
}

/// One of the attempts shows the code of a counter and was accepted.
pub open spec fn accepted_at(u: Setup, s: AuthState, h: Seq<Attempt>, counter: u64, k: int) -> bool {
    shows(u, h[k], counter) && outcome(u, s, h, k) == CodeOutcome::Accepted
}

/// One of the attempts was accepted for the code of a counter.
pub open spec fn accepted_in(u: Setup, s: AuthState, h: Seq<Attempt>, counter: u64) -> bool {
    exists|k: int| 0 <= k < h.len() && #[trigger] accepted_at(u, s, h, counter, k)
}

proof fn lemma_accepted_at(u: Setup, s: AuthState, h: Seq<Attempt>, counter: u64, k: int)
    requires
        0 <= k < h.len(),
    ensures
        k < h.len() - 1 ==> accepted_at(u, s, h, counter, k) == accepted_at(
            u,
            s,
            h.drop_last(),
            counter,
            k,
        ),
        k == h.len() - 1 ==> accepted_at(u, s, h, counter, k) == (shows(u, h.last(), counter)
            && tried(u, after(u, s, h.drop_last()), h.last()).1 == CodeOutcome::Accepted),
{
    if k < h.len() - 1 {
        assert(h.drop_last().take(k) =~= h.take(k));
    } else {
        assert(h.take(k) =~= h.drop_last());
    }
}

proof fn lemma_accepted_in(u: Setup, s: AuthState, h: Seq<Attempt>, counter: u64)
    requires
        h.len() > 0,
    ensures
        accepted_in(u, s, h, counter) <==> accepted_in(u, s, h.drop_last(), counter)
            || accepted_at(u, s, h, counter, h.len() - 1),
{
    let g = h.drop_last();
    if accepted_in(u, s, h, counter) {
        let k = choose|k: int| 0 <= k < h.len() && #[trigger] accepted_at(u, s, h, counter, k);
        lemma_accepted_at(u, s, h, counter, k);
    }
    if accepted_in(u, s, g, counter) {
        let k = choose|k: int| 0 <= k < g.len() && #[trigger] accepted_at(u, s, g, counter, k);
        lemma_accepted_at(u, s, h, counter, k);
    }
}

/// What counts as spent was accepted before, and what was accepted before still
/// counts as spent while a clock could produce it.
proof fn lemma_spent(u: Setup, s: AuthState, h: Seq<Attempt>, counter: u64, now: u64)
    requires
        u.rules.totp_skew_steps < u64::MAX,
        s.consumed == Set::<u64>::empty(),
        in_order(h),
        forall|i: int| 0 <= i < h.len() ==> (#[trigger] h[i]).time() <= now,
    ensures
        after(u, s, h).consumed.contains(counter) ==> accepted_in(u, s, h, counter),
        accepted_in(u, s, h, counter) && counter >= totp::floor_step(now, u.rules.totp_skew_steps)
            ==> after(u, s, h).consumed.contains(counter),
    decreases h.len(),
{
    if h.len() > 0 {
        let g = h.drop_last();
        assert(in_order(g)) by {
            assert forall|i: int, j: int| 0 <= i < j < g.len() implies (#[trigger] g[i]).time() <= (
            #[trigger] g[j]).time() by {
                assert(g[i] == h[i] && g[j] == h[j]);
            }
        }
        assert forall|i: int| 0 <= i < g.len() implies (#[trigger] g[i]).time() <= now by {
            assert(g[i] == h[i]);
        }
        lemma_spent(u, s, g, counter, now);
        lemma_accepted_in(u, s, h, counter);
        lemma_accepted_at(u, s, h, counter, h.len() - 1);
        assert(h[h.len() - 1].time() <= now);
    }
}

/// Over any attempts at times that never go back, a code is accepted where it is
/// right and its counter was not accepted before, and nowhere else: each counter
/// is worth one sign-in. One that was accepted before is told to be replayed.
pub proof fn a_code_is_accepted_once(
    u: Setup,
    s: AuthState,
    h: Seq<Attempt>,
    code: Seq<char>,
    now: u64,
)
    requires
        u.rules.totp_skew_steps < u64::MAX,
        s.consumed == Set::<u64>::empty(),
        in_order(h),
        forall|i: int| 0 <= i < h.len() ==> (#[trigger] h[i]).time() <= now,
        locked(after(u, s, h), now) is None,
    ensures
        ({
            let came = tried(u, after(u, s, h), Attempt::Code { code, now }).1;
            match totp::verified(u.secret, code, now, u.rules.totp_skew_steps) {
                Some(counter) => {
                    &&& came == CodeOutcome::Accepted <==> !accepted_in(u, s, h, counter)
                    &&& came == CodeOutcome::Replayed <==> accepted_in(u, s, h, counter)
                },
                None => came != CodeOutcome::Accepted && came != CodeOutcome::Replayed,
            }
        }),
{
    if let Some(counter) = totp::verified(u.secret, code, now, u.rules.totp_skew_steps) {
        totp::acceptance_is_within_the_skew(u.secret, code, now, u.rules.totp_skew_steps);
        lemma_spent(u, s, h, counter, now);
    }
}

/// An attempt that fails: a wrong code, or a wrong password where the password
/// is asked for.
pub open spec fn fails(u: Setup, s: AuthState, a: Attempt) -> bool {
    match a {
        Attempt::Code { code, now } => looked_at(u.secret, code, u.rules, now)
            == VerifyOutcome::Invalid,
        Attempt::Password { word, device, now } => prompt(u.key, s, device, now)
            == LoginPrompt::Password && !password_matches(s, word),
    }
}

/// How many of the attempts fail.
pub open spec fn failures_in(u: Setup, s: AuthState, h: Seq<Attempt>) -> nat
    decreases h.len(),
{
    if h.len() == 0 {
        0
    } else {
        failures_in(u, s, h.drop_last()) + (if fails(u, s, h.last()) {
            1nat
        } else {
            0
        })
    }
}

/// None of the attempts was accepted.
pub open spec fn none_accepted(u: Setup, s: AuthState, h: Seq<Attempt>) -> bool {
    forall|k: int| 0 <= k < h.len() ==> #[trigger] outcome(u, s, h, k) != CodeOutcome::Accepted
}

proof fn lemma_failures(u: Setup, s: AuthState, h: Seq<Attempt>)
    requires
        s.failures == 0,
        s.locked_until == 0,
        none_accepted(u, s, h),
        failures_in(u, s, h) < u.rules.max_failures,
    ensures
        after(u, s, h).failures == failures_in(u, s, h),
        after(u, s, h).locked_until == 0,
        after(u, s, h).password == s.password,
        forall|c: u64|
            #[trigger] after(u, s, h).consumed.contains(c) ==> s.consumed.contains(c),
    decreases h.len(),
{
    if h.len() > 0 {
        let g = h.drop_last();
        let n = h.len() - 1;
        assert(h.take(n) =~= g);
        assert(none_accepted(u, s, g)) by {
            assert forall|k: int| 0 <= k < g.len() implies #[trigger] outcome(u, s, g, k)
                != CodeOutcome::Accepted by {
                assert(g.take(k) =~= h.take(k));
                assert(outcome(u, s, h, k) == outcome(u, s, g, k));
            }
        }
        lemma_failures(u, s, g);
        assert(outcome(u, s, h, n) != CodeOutcome::Accepted);
    }
}

/// From a start or a success on, the failure that makes `max_failures` of them
/// locks everything out, whatever mix of wrong codes and wrong passwords they
/// are, whenever they are made, and whatever else is tried between them without
/// success. Until the lockout is over nothing is accepted, not even what is
/// right; from then on a right code that was not spent before is.
pub proof fn repeated_failures_lock_out(
    u: Setup,
    s: AuthState,
    h: Seq<Attempt>,
    last: Attempt,
    next: Attempt,
)
    requires
        s.failures == 0,
        s.locked_until == 0,
        none_accepted(u, s, h),
        u.rules.max_failures > 0,
        failures_in(u, s, h) == u.rules.max_failures - 1,
        fails(u, s, last),
        u.rules.lockout_secs > 0,
        last.time() + u.rules.lockout_secs <= u64::MAX,
    ensures
        ({
            let locked_out = tried(u, after(u, s, h), last);
            let end = last.time() + u.rules.lockout_secs;
            &&& locked_out.1 == CodeOutcome::LockedOut { retry_after_secs: u.rules.lockout_secs }
            &&& next.time() < end ==> tried(u, locked_out.0, next) == (
                locked_out.0,
                CodeOutcome::LockedOut { retry_after_secs: (end - next.time()) as u64 },
            )
            &&& next.time() >= end ==> (forall|counter: u64|
                #[trigger] shows(u, next, counter) && !s.consumed.contains(counter) ==> tried(
                    u,
                    locked_out.0,
                    next,
                ).1 == CodeOutcome::Accepted)
        }),
{
    lemma_failures(u, s, h);
}

/// A success forgets all failures and any lockout.
pub proof fn a_success_starts_over(u: Setup, s: AuthState, a: Attempt)
    requires
        tried(u, s, a).1 == CodeOutcome::Accepted,
    ensures
        tried(u, s, a).0.failures == 0,
        tried(u, s, a).0.locked_until == 0,
{
}

/// While locked out nothing is accepted, nothing changes, and only what is
/// public is granted.
pub proof fn a_lockout_refuses_everything(
    key: Seq<u8>,
    p: AuthPolicy,
    s: AuthState,
    attempt: VerifyOutcome,
    asked: LoginPrompt,
    matches: bool,
    token: Option<Seq<char>>,
    now: u64,
)
    requires
        s.locked_until > now,
    ensures
        code_step(p, s, attempt, now) == (
            s,
            CodeOutcome::LockedOut { retry_after_secs: (s.locked_until - now) as u64 },
        ),
        password_step(p, s, asked, matches, now) == (
            s,
            CodeOutcome::LockedOut { retry_after_secs: (s.locked_until - now) as u64 },
        ),
        authorized(key, s, token, Sensitivity::Session, now) == (AuthOutcome::LockedOut {
            retry_after_secs: (s.locked_until - now) as u64,
        }),
        authorized(key, s, token, Sensitivity::Public, now) == AuthOutcome::Granted,
{
}

/// A lockout ends: from then on a code that is right and unspent is accepted.
pub proof fn a_lockout_ends(p: AuthPolicy, s: AuthState, counter: u64, now: u64)
    requires
        s.locked_until <= now,
        !s.consumed.contains(counter),
    ensures
        code_step(p, s, VerifyOutcome::Valid { counter }, now).1 == CodeOutcome::Accepted,
        code_step(p, s, VerifyOutcome::Valid { counter }, now).0.failures == 0,
        code_step(p, s, VerifyOutcome::Valid { counter }, now).0.locked_until == 0,
{
}

/// What is granted beyond the public is granted to a session only.
pub proof fn only_a_session_is_granted(
    key: Seq<u8>,
    s: AuthState,
    token: Option<Seq<char>>,
    now: u64,
)
    ensures
        authorized(key, s, token, Sensitivity::Session, now) == AuthOutcome::Granted ==> token
            is Some && unlocked(key, token->0, now) && locked(s, now) is None,
        authorized(key, s, None, Sensitivity::Session, now) != AuthOutcome::Granted,
{
}

/// A failed attempt counts one more, until it is one too many: then the count
/// starts over, and the door stays shut for the time that is set. Nothing else
/// changes.
pub proof fn a_failure_counts_one(p: AuthPolicy, s: AuthState, now: u64)
    requires
        s.locked_until <= now,
        now + p.lockout_secs <= u64::MAX,
        s.failures < u32::MAX,
    ensures
        ({
            let (t, came) = password_step(p, s, LoginPrompt::Password, false, now);
            &&& t.password == s.password
            &&& t.consumed == s.consumed
            &&& s.failures + 1 < p.max_failures ==> came == CodeOutcome::Rejected && t.failures
                == s.failures + 1 && t.locked_until == s.locked_until
            &&& s.failures + 1 >= p.max_failures ==> came == (CodeOutcome::LockedOut {
                retry_after_secs: p.lockout_secs,
            }) && t.failures == 0 && t.locked_until == now + p.lockout_secs
        }),
{
}

/// A right password opens, and a right code that was not used; either takes the
/// failures back and leaves the password. Of the codes that were used, those are
/// remembered that could still be shown, and one step more.
pub proof fn a_success_opens(p: AuthPolicy, s: AuthState, counter: u64, c: u64, now: u64)
    requires
        s.locked_until <= now,
        !s.consumed.contains(counter),
        p.totp_skew_steps < u64::MAX,
    ensures
        password_step(p, s, LoginPrompt::Password, true, now) == (
            AuthState {
                password: s.password,
                consumed: s.consumed,
                failures: 0,
                locked_until: 0,
            },
            CodeOutcome::Accepted,
        ),
        ({
            let (t, came) = code_step(p, s, VerifyOutcome::Valid { counter }, now);
            &&& came == CodeOutcome::Accepted
            &&& t.password == s.password
            &&& t.failures == 0
            &&& t.locked_until == 0
            &&& t.consumed.contains(c) <==> c == counter || (s.consumed.contains(c) && c
                + p.totp_skew_steps + 1 >= now / 30)
        }),
{
}

/// A password is asked for where one is set and the browser carries a token of a
/// device that is good; a code is asked for else.
pub proof fn what_is_asked_for(
    key: Seq<u8>,
    s: AuthState,
    device: Option<Seq<char>>,
    c: KindClaims,
    now: u64,
)
    requires
        device is Some ==> session::validated_kind(key, device->0, now) == Ok::<
            KindClaims,
            session::TokenError,
        >(c),
    ensures
        prompt(key, s, device, now) == LoginPrompt::Password <==> s.password is Some && device
            is Some && c.kind == TokenKind::Device,
        prompt(key, s, device, now) == LoginPrompt::Code <==> s.password is None || device is None
            || c.kind == TokenKind::Session,
{
}

/// A session's token is what opens, and only while there is no lockout.
pub proof fn what_opens(
    key: Seq<u8>,
    s: AuthState,
    token: Seq<char>,
    c: KindClaims,
    now: u64,
)
    requires
        session::validated_kind(key, token, now) == Ok::<KindClaims, session::TokenError>(c),
    ensures
        authorized(key, s, Some(token), Sensitivity::Session, now) == AuthOutcome::Granted <==> c.kind
            == TokenKind::Session && s.locked_until <= now,
        authorized(key, s, Some(token), Sensitivity::Session, now) == AuthOutcome::Unauthenticated
            <==> c.kind == TokenKind::Device && s.locked_until <= now,
        authorized(key, s, None, Sensitivity::Public, now) == AuthOutcome::Granted,
{
}

} // verus!
