//! Session lifecycle.
//!
//! The central decision: **closing a window detaches; only an explicit kill
//! destroys.** Launching a workload from a terminal and then closing the window
//! must not kill the workload, so the two are separate operations with separate
//! controls, never merged.
//!
//! Each session runs under `systemd-run --user --scope`, which yields a PTY and
//! a cgroup from one mechanism. A terminal is the least supervised path in the
//! whole system — it is exactly how somebody accidentally runs the thing that
//! eats the machine — so it gets the same containment as every other workload
//! rather than being the one hole in the design.
//!
//! What is here decides: whether a session may start, what it runs, what is
//! retained of its output, when it is forgotten. Whoever holds the terminals
//! spawns what a [`Launch`] says and reports back.

use crate::clock;
use crate::order;
use crate::supervisor;
use crate::term::ring;
use crate::term::ring::Ring;
use crate::text;
use vstd::prelude::*;

verus! {

/// How long an exited session lingers before being reaped, in seconds.
///
/// Without this, a command that fails instantly would vanish before its error
/// could be read — the session would disappear along with the explanation.
pub const LINGER: u64 = 300;

/// Buffered chunks per subscriber. Terminal output is bursty; a build flooding
/// the channel must not stall the reader thread feeding every other subscriber.
pub const BROADCAST_DEPTH: usize = 256;

#[derive(Debug)]
pub struct SessionInfo {
    pub id: String,
    pub title: String,
    pub pid: u32,
    pub created_unix: u64,
    pub attached: usize,
    pub exited: bool,
    pub exit_code: Option<i32>,
    pub scrollback_bytes: usize,
    /// Bytes discarded to stay within the cap. Non-zero means the history shown
    /// on reattach is incomplete, and the UI should say so.
    pub scrollback_dropped: u64,
}

pub struct Session {
    pub id: String,
    pub title: String,
    pub created_unix: u64,
    /// Transient scope unit, when systemd was available.
    pub unit: Option<String>,
    pub pid: u32,
    scrollback: Ring,
    attached: usize,
    exited: bool,
    exit_code: Option<i32>,
    /// When it ended, in nanoseconds.
    ended_at: Option<u64>,
}

#[verifier::ext_equal]
pub struct SessionView {
    pub id: Seq<char>,
    pub title: Seq<char>,
    pub created_unix: u64,
    pub unit: Option<Seq<char>>,
    pub pid: u32,
    /// What is retained of the output, how much may be, and how much is lost.
    pub kept: Seq<u8>,
    pub cap: nat,
    pub lost: nat,
    pub attached: nat,
    pub exited: bool,
    pub exit_code: Option<i32>,
    pub ended_at: Option<u64>,
}

impl View for Session {
    type V = SessionView;

    closed spec fn view(&self) -> SessionView {
        SessionView {
            id: self.id@,
            title: self.title@,
            created_unix: self.created_unix,
            unit: text::opt(self.unit),
            pid: self.pid,
            kept: self.scrollback@,
            cap: self.scrollback.cap(),
            lost: self.scrollback.lost(),
            attached: self.attached as nat,
            exited: self.exited,
            exit_code: self.exit_code,
            ended_at: self.ended_at,
        }
    }
}

/// No more is retained than allowed, and everything that came out is counted.
pub open spec fn sound(s: SessionView) -> bool {
    s.kept.len() <= s.cap && s.lost + s.kept.len() <= u64::MAX
}

pub struct InfoView {
    pub id: Seq<char>,
    pub title: Seq<char>,
    pub pid: u32,
    pub created_unix: u64,
    pub attached: nat,
    pub exited: bool,
    pub exit_code: Option<i32>,
    pub scrollback_bytes: nat,
    pub scrollback_dropped: nat,
}

impl View for SessionInfo {
    type V = InfoView;

    open spec fn view(&self) -> InfoView {
        InfoView {
            id: self.id@,
            title: self.title@,
            pid: self.pid,
            created_unix: self.created_unix,
            attached: self.attached as nat,
            exited: self.exited,
            exit_code: self.exit_code,
            scrollback_bytes: self.scrollback_bytes as nat,
            scrollback_dropped: self.scrollback_dropped as nat,
        }
    }
}

/// What is told of a session.
pub open spec fn told(s: SessionView) -> InfoView {
    InfoView {
        id: s.id,
        title: s.title,
        pid: s.pid,
        created_unix: s.created_unix,
        attached: s.attached,
        exited: s.exited,
        exit_code: s.exit_code,
        scrollback_bytes: s.kept.len(),
        scrollback_dropped: s.lost,
    }
}

/// A session that has exited takes no input.
#[derive(Debug, Clone, Copy, PartialEq, Eq, Structural)]
pub struct HasExited;

impl Session {
    /// A subscriber comes: the scrollback to show it.
    ///
    /// History and subscription belong together under one lock, so that a
    /// subscriber cannot miss bytes written in between.
    pub fn attach(&mut self) -> (r: Vec<u8>)
        requires
            old(self)@.attached < usize::MAX,
        ensures
            r@ == old(self)@.kept,
            final(self)@ == (SessionView { attached: old(self)@.attached + 1, ..old(self)@ }),
    {
        self.attached = self.attached + 1;
        self.scrollback.snapshot()
    }

    /// A subscriber goes. The session stays.
    pub fn detach(&mut self)
        ensures
            final(self)@ == unattached(old(self)@),
    {
        if self.attached > 0 {
            self.attached = self.attached - 1;
        }
    }

    /// Whether input may be sent, as if typed at the keyboard.
    pub fn write(&self) -> (r: Result<(), HasExited>)
        ensures
            r is Err <==> self@.exited,
    {
        if self.exited {
            Err(HasExited)
        } else {
            Ok(())
        }
    }

    pub fn pid(&self) -> (r: u32)
        ensures
            r == self@.pid,
    {
        self.pid
    }

    pub fn has_exited(&self) -> (r: bool)
        ensures
            r == self@.exited,
    {
        self.exited
    }

    /// Output came out of the terminal.
    pub fn output(&mut self, bytes: &[u8])
        requires
            sound(old(self)@),
            old(self)@.lost + old(self)@.kept.len() + bytes@.len() <= u64::MAX,
        ensures
            sound(final(self)@),
            final(self)@ == (SessionView {
                kept: ring::tail(old(self)@.kept + bytes@, old(self)@.cap),
                lost: (old(self)@.lost + old(self)@.kept.len() + bytes@.len()
                    - final(self)@.kept.len()) as nat,
                ..old(self)@
            }),
    {
        self.scrollback.push(bytes);
    }

    /// The terminal closed.
    pub fn ended(&mut self, now: u64)
        ensures
            final(self)@ == (SessionView { exited: true, ended_at: Some(now), ..old(self)@ }),
    {
        self.exited = true;
        self.ended_at = Some(now);
    }

    /// The child's exit status became known.
    pub fn exited_with(&mut self, code: i32)
        ensures
            final(self)@ == (SessionView { exit_code: Some(code), ..old(self)@ }),
    {
        self.exit_code = Some(code);
    }

    pub fn info(&self) -> (r: SessionInfo)
        ensures
            r@ == told(self@),
    {
        SessionInfo {
            id: self.id.clone(),
            title: self.title.clone(),
            pid: self.pid,
            created_unix: self.created_unix,
            attached: self.attached,
            exited: self.exited,
            exit_code: self.exit_code,
            scrollback_bytes: self.scrollback.len(),
            scrollback_dropped: self.scrollback.dropped(),
        }
    }

    /// Shrink retained scrollback — used when the governor de-escalates.
    pub fn set_scrollback_capacity(&mut self, cap: usize)
        requires
            sound(old(self)@),
        ensures
            sound(final(self)@),
            final(self)@ == shrunk(old(self)@, cap as nat),
    {
        self.scrollback.set_capacity(cap);
        assert(self@ =~= shrunk(old(self)@, cap as nat));
    }
}

/// A session whose scrollback is cut to a cap.
pub open spec fn shrunk(s: SessionView, cap: nat) -> SessionView {
    let kept = ring::tail(s.kept, cap);
    SessionView { kept, cap, lost: (s.lost + s.kept.len() - kept.len()) as nat, ..s }
}

#[derive(Debug)]
pub struct TermConfig {
    pub enabled: bool,
    pub shell: String,
    pub scrollback_bytes: usize,
    pub max_sessions: usize,
    /// Wrap sessions in a transient systemd scope. Disabled in tests and on
    /// hosts without a user manager.
    pub use_scope: bool,
}

pub struct TermView {
    pub enabled: bool,
    pub shell: Seq<char>,
    pub scrollback_bytes: usize,
    pub max_sessions: usize,
    pub use_scope: bool,
}

impl View for TermConfig {
    type V = TermView;

    open spec fn view(&self) -> TermView {
        TermView {
            enabled: self.enabled,
            shell: self.shell@,
            scrollback_bytes: self.scrollback_bytes,
            max_sessions: self.max_sessions,
            use_scope: self.use_scope,
        }
    }
}

/// The shell to use: the account's, else the environment's, else `/bin/sh`.
pub open spec fn shell_of(account: Option<&str>, env: Option<&str>) -> Seq<char> {
    if account is Some && account->0@.len() > 0 {
        account->0@
    } else {
        match env {
            Some(s) => s@,
            None => "/bin/sh"@,
        }
    }
}

/// The account's login shell, from the password database.
///
/// Deliberately not `$SHELL` first: the daemon inherits that from whatever
/// launched it, so a service started from a script would hand the operator a
/// different shell than the one they actually use.
pub fn login_shell(account: Option<&str>, env: Option<&str>) -> (r: String)
    ensures
        r@ == shell_of(account, env),
{
    match account {
        Some(s) => {
            if !s.is_empty() {
                return s.to_string();
            }
        },
        None => {},
    }
    match env {
        Some(s) => s.to_string(),
        None => "/bin/sh".to_string(),
    }
}

impl TermConfig {
    /// The configuration that ships, with a login shell.
    pub fn with_shell(shell: String) -> (r: Self)
        ensures
            r@ == (TermView {
                enabled: true,
                shell: shell@,
                scrollback_bytes: ring::DEFAULT_CAPACITY,
                max_sessions: 16,
                use_scope: true,
            }),
    {
        TermConfig {
            enabled: true,
            shell,
            scrollback_bytes: ring::DEFAULT_CAPACITY,
            // A ceiling on concurrent sessions: each holds a shell, a thread and
            // a scrollback buffer, and an accidental loop opening terminals
            // should hit a wall rather than the machine's memory.
            max_sessions: 16,
            use_scope: true,
        }
    }
}

#[derive(Debug, Clone, Copy, PartialEq, Eq, Structural)]
pub enum SpawnError {
    Disabled,
    TooMany,
}

impl SpawnError {
    pub fn message(&self) -> (r: &'static str)
        ensures
            r@ == (match *self {
                SpawnError::Disabled => "terminal sessions are disabled"@,
                SpawnError::TooMany => "too many open sessions"@,
            }),
    {
        match self {
            SpawnError::Disabled => "terminal sessions are disabled",
            SpawnError::TooMany => "too many open sessions",
        }
    }
}

/// What to spawn for a new session.
#[derive(Debug)]
pub struct Launch {
    pub id: String,
    pub unit: Option<String>,
    pub argv: Vec<String>,
}

/// What to destroy: the scope and everything in it where there is one, else the
/// child.
#[derive(Debug)]
pub struct Doomed {
    pub unit: Option<String>,
    pub pid: u32,
}

// ---------------------------------------------------------------------------
// What a session runs
// ---------------------------------------------------------------------------

/// A session's id: when it was asked for, and a number that no other has.
pub open spec fn session_id(unix: u64, number: u64) -> Seq<char> {
    text::hex(unix as nat) + "-"@ + text::dec(number as nat)
}

/// The command itself. Without one it is the login shell, `-l` so that it
/// sources the operator's profile; a command that is to outlive its terminal
/// ignores hangup, and a signal that is ignored stays so across exec.
pub open spec fn base_argv(shell: Seq<char>, argv: Seq<Seq<char>>, hangup_proof: bool) -> Seq<
    Seq<char>,
> {
    if argv.len() == 0 {
        seq![shell, "-l"@]
    } else if hangup_proof {
        seq!["/bin/sh"@, "-c"@, "trap \"\" HUP; exec \"$@\""@, "prism"@] + argv
    } else {
        argv
    }
}

/// The unit of a session: named after the facet it runs, so that the
/// association survives the daemon, else after the session.
pub open spec fn unit_of(use_scope: bool, facet: Option<Seq<char>>, id: Seq<char>) -> Option<
    Seq<char>,
> {
    if !use_scope {
        None
    } else {
        match facet {
            Some(f) => Some(supervisor::scope(f)),
            None => Some("prism-term-"@ + id + ".scope"@),
        }
    }
}

/// The whole command line: in a scope where there is a unit.
pub open spec fn full_argv(unit: Option<Seq<char>>, base: Seq<Seq<char>>) -> Seq<Seq<char>> {
    match unit {
        Some(u) => seq![
            "systemd-run"@,
            "--user"@,
            "--scope"@,
            "--quiet"@,
            "--unit="@ + u,
            "--property=MemoryAccounting=yes"@,
            "--"@,
        ] + base,
        None => base,
    }
}

/// A session is kept: it runs, or it ended less than the linger ago.
pub open spec fn lingers(s: SessionView, now: u64) -> bool {
    !s.exited || s.ended_at is None || clock::within_secs(now, s.ended_at->0, LINGER)
}

/// What is left after the exited ones have lingered long enough.
pub open spec fn reaped(v: Seq<SessionView>, now: u64) -> Seq<SessionView> {
    v.filter(|s: SessionView| lingers(s, now))
}

/// The sessions that have not exited.
pub open spec fn live(v: Seq<SessionView>) -> Seq<SessionView> {
    v.filter(|s: SessionView| !s.exited)
}

/// All but the session of an id.
pub open spec fn without(v: Seq<SessionView>, id: Seq<char>) -> Seq<SessionView> {
    v.filter(|s: SessionView| s.id != id)
}

/// A session as it starts.
pub open spec fn started(
    l: Launch,
    title: Seq<char>,
    pid: u32,
    created_unix: u64,
    cap: nat,
) -> SessionView {
    SessionView {
        id: l.id@,
        title,
        created_unix,
        unit: text::opt(l.unit),
        pid,
        kept: seq![],
        cap,
        lost: 0,
        attached: 0,
        exited: false,
        exit_code: None,
        ended_at: None,
    }
}

pub open spec fn session_views(v: Seq<Session>) -> Seq<SessionView> {
    v.map_values(|s: Session| s@)
}

/// No two sessions share an id.
pub open spec fn ids_differ(v: Seq<SessionView>) -> bool {
    forall|i: int, j: int| 0 <= i < j < v.len() ==> #[trigger] v[i].id != #[trigger] v[j].id
}

pub open spec fn all_sound(v: Seq<SessionView>) -> bool {
    forall|i: int| 0 <= i < v.len() ==> sound(#[trigger] v[i])
}

// ---------------------------------------------------------------------------
// The manager
// ---------------------------------------------------------------------------

pub struct SessionManager {
    sessions: Vec<Session>,
    cfg: TermConfig,
    counter: u64,
}

fn push_all(out: &mut Vec<String>, more: &Vec<String>)
    ensures
        text::strs(final(out)@) == text::strs(old(out)@) + text::strs(more@),
{
    let ghost start = text::strs(out@);
    let mut i: usize = 0;
    assert(text::strs(out@) =~= start + text::strs(more@).take(0));
    while i < more.len()
        invariant
            i <= more.len(),
            text::strs(out@) == start + text::strs(more@).take(i as int),
        decreases more.len() - i,
    {
        let s = more[i].clone();
        proof {
            text::lemma_strs_push(out@, s);
            assert(text::strs(more@)[i as int] == s@);
        }
        out.push(s);
        i += 1;
        assert(text::strs(out@) =~= start + text::strs(more@).take(i as int));
    }
    assert(text::strs(more@).take(i as int) =~= text::strs(more@));
}

fn base_of(shell: &str, argv: &Vec<String>, hangup_proof: bool) -> (r: Vec<String>)
    ensures
        text::strs(r@) == base_argv(shell@, text::strs(argv@), hangup_proof),
{
    let mut out: Vec<String> = Vec::new();
    assert(text::strs(argv@).len() == argv@.len());
    if argv.len() == 0 {
        out.push(shell.to_string());
        out.push("-l".to_string());
        assert(text::strs(out@) =~= seq![shell@, "-l"@]);
        return out;
    }
    if hangup_proof {
        out.push("/bin/sh".to_string());
        out.push("-c".to_string());
        out.push("trap \"\" HUP; exec \"$@\"".to_string());
        out.push("prism".to_string());
        assert(text::strs(out@) =~= seq![
            "/bin/sh"@,
            "-c"@,
            "trap \"\" HUP; exec \"$@\""@,
            "prism"@,
        ]);
    }
    let ghost head = text::strs(out@);
    push_all(&mut out, argv);
    if !hangup_proof {
        assert(head + text::strs(argv@) =~= text::strs(argv@));
    }
    out
}

fn full_of(unit: &Option<String>, base: &Vec<String>) -> (r: Vec<String>)
    ensures
        text::strs(r@) == full_argv(text::opt(*unit), text::strs(base@)),
{
    let mut out: Vec<String> = Vec::new();
    match unit {
        Some(u) => {
            out.push("systemd-run".to_string());
            out.push("--user".to_string());
            out.push("--scope".to_string());
            out.push("--quiet".to_string());
            let mut named = "--unit=".to_string();
            named.append(u.as_str());
            out.push(named);
            out.push("--property=MemoryAccounting=yes".to_string());
            out.push("--".to_string());
            assert(text::strs(out@) =~= seq![
                "systemd-run"@,
                "--user"@,
                "--scope"@,
                "--quiet"@,
                "--unit="@ + u@,
                "--property=MemoryAccounting=yes"@,
                "--"@,
            ]);
            push_all(&mut out, base);
        },
        None => {
            let ghost head = text::strs(out@);
            push_all(&mut out, base);
            assert(head + text::strs(base@) =~= text::strs(base@));
        },
    }
    out
}

fn id_of(unix: u64, number: u64) -> (r: String)
    ensures
        r@ == session_id(unix, number),
{
    let mut out = String::new();
    text::push_hex(&mut out, unix);
    out.append("-");
    text::push_dec(&mut out, number);
    assert(out@ =~= session_id(unix, number));
    out
}

fn session_lingers(s: &Session, now: u64) -> (r: bool)
    ensures
        r == lingers(s@, now),
{
    if !s.exited {
        return true;
    }
    match s.ended_at {
        Some(t) => clock::is_within_secs(now, t, LINGER),
        None => true,
    }
}

/// Two sequences that agree from some place on agree from the next place on,
/// also where what stands there is taken out of one.
proof fn lemma_step(a: Seq<SessionView>, i: int, b: Seq<SessionView>, k: int)
    requires
        0 <= i < a.len(),
        0 <= k <= b.len(),
        a.skip(i) == b.skip(k),
    ensures
        k < b.len(),
        a[i] == b[k],
        a.skip(i + 1) == b.skip(k + 1),
        a.remove(i).take(i) == a.take(i),
        a.remove(i).skip(i) == b.skip(k + 1),
{
    assert(a.skip(i).len() == b.skip(k).len());
    assert(a.skip(i)[0] == b.skip(k)[0]);
    assert(a.skip(i).skip(1) =~= a.skip(i + 1));
    assert(b.skip(k).skip(1) =~= b.skip(k + 1));
    assert(a.remove(i).take(i) =~= a.take(i));
    assert(a.remove(i).skip(i) =~= a.skip(i + 1));
}

/// Filtering keeps what each kept element has of its own.
proof fn lemma_filter_keeps(v: Seq<SessionView>, keep: spec_fn(SessionView) -> bool)
    ensures
        ids_differ(v) ==> ids_differ(v.filter(keep)),
        all_sound(v) ==> all_sound(v.filter(keep)),
        forall|x: SessionView| #[trigger]
            v.filter(keep).contains(x) ==> v.contains(x) && keep(x),
    decreases v.len(),
{
    reveal(Seq::filter);
    if v.len() > 0 {
        let rest = v.drop_last();
        lemma_filter_keeps(rest, keep);
        let f = rest.filter(keep);
        let x = v.last();
        if ids_differ(v) {
            assert(ids_differ(rest)) by {
                assert forall|i: int, j: int| 0 <= i < j < rest.len() implies #[trigger] rest[i].id
                    != #[trigger] rest[j].id by {
                    assert(rest[i] == v[i] && rest[j] == v[j]);
                }
            }
            if keep(x) {
                let g = f.push(x);
                assert forall|i: int, j: int| 0 <= i < j < g.len() implies #[trigger] g[i].id
                    != #[trigger] g[j].id by {
                    if j == f.len() {
                        assert(g[i] == f[i]);
                        assert(f.contains(f[i]));
                        let k = choose|k: int| 0 <= k < rest.len() && rest[k] == f[i];
                        assert(v[k] == f[i]);
                        assert(v[k].id != v[v.len() - 1].id);
                    } else {
                        assert(g[i] == f[i] && g[j] == f[j]);
                        assert(f[i].id != f[j].id);
                    }
                }
            }
        }
        if all_sound(v) {
            assert forall|i: int| 0 <= i < rest.len() implies sound(#[trigger] rest[i]) by {
                assert(rest[i] == v[i]);
            }
            assert(sound(v[v.len() - 1]));
        }
        assert forall|y: SessionView| #[trigger] v.filter(keep).contains(y) implies v.contains(y) && keep(y) by {
            if f.contains(y) {
                let k = choose|k: int| 0 <= k < rest.len() && rest[k] == y;
                assert(v[k] == y);
            } else {
                assert(y == x);
                assert(v[v.len() - 1] == y);
            }
        }
    }
}

impl SessionManager {
    pub closed spec fn sessions(&self) -> Seq<SessionView> {
        session_views(self.sessions@)
    }

    pub closed spec fn cfg(&self) -> TermView {
        self.cfg@
    }

    /// How many sessions were ever asked for.
    pub closed spec fn asked(&self) -> u64 {
        self.counter
    }

    pub open spec fn wf(&self) -> bool {
        ids_differ(self.sessions()) && all_sound(self.sessions())
    }

    pub fn new(cfg: TermConfig) -> (r: Self)
        ensures
            r.wf(),
            r.sessions() == Seq::<SessionView>::empty(),
            r.cfg() == cfg@,
            r.asked() == 0,
    {
        let r = SessionManager { sessions: Vec::new(), cfg, counter: 0 };
        assert(session_views(r.sessions@) =~= Seq::<SessionView>::empty());
        r
    }

    pub fn config(&self) -> (r: &TermConfig)
        ensures
            r@ == self.cfg(),
    {
        &self.cfg
    }

    /// Whether there is a number left that no session was given yet.
    pub fn has_number_left(&self) -> (r: bool)
        ensures
            r == (self.asked() < u64::MAX),
    {
        self.counter < 0xffff_ffff_ffff_ffff
    }

    /// Start a session. `argv` empty means the configured login shell.
    pub fn create(&mut self, argv: &Vec<String>, unix: u64, now: u64) -> (r: Result<
        Launch,
        SpawnError,
    >)
        requires
            old(self).wf(),
            old(self).asked() < u64::MAX,
        ensures
            final(self).wf(),
            final(self).cfg() == old(self).cfg(),
            planned(
                *old(self),
                *final(self),
                text::strs(argv@),
                false,
                None,
                unix,
                now,
                r,
            ),
    {
        self.create_with(argv, false, None, unix, now)
    }

    /// As [`Self::create`], but the command is made proof against hangup.
    ///
    /// Used for facets: a long-running workload started through a terminal
    /// should survive the terminal, and the daemon, and anything short of an
    /// explicit Kill.
    pub fn create_hangup_proof(&mut self, argv: &Vec<String>, unix: u64, now: u64) -> (r: Result<
        Launch,
        SpawnError,
    >)
        requires
            old(self).wf(),
            old(self).asked() < u64::MAX,
        ensures
            final(self).wf(),
            final(self).cfg() == old(self).cfg(),
            planned(
                *old(self),
                *final(self),
                text::strs(argv@),
                true,
                None,
                unix,
                now,
                r,
            ),
    {
        self.create_with(argv, true, None, unix, now)
    }

    /// Start a facet's interactive launcher, under a unit named after the
    /// facet rather than after the session.
    ///
    /// The name is the whole point. A session id lives only in this process, so
    /// once the daemon restarts nothing could tell that the scope still running
    /// belongs to a facet.
    pub fn create_for_facet(&mut self, facet_id: &str, argv: &Vec<String>, unix: u64, now: u64) -> (r:
        Result<Launch, SpawnError>)
        requires
            old(self).wf(),
            old(self).asked() < u64::MAX,
        ensures
            final(self).wf(),
            final(self).cfg() == old(self).cfg(),
            planned(
                *old(self),
                *final(self),
                text::strs(argv@),
                true,
                Some(facet_id@),
                unix,
                now,
                r,
            ),
    {
        self.create_with(argv, true, Some(facet_id), unix, now)
    }

    fn create_with(
        &mut self,
        argv: &Vec<String>,
        hangup_proof: bool,
        facet_id: Option<&str>,
        unix: u64,
        now: u64,
    ) -> (r: Result<Launch, SpawnError>)
        requires
            old(self).wf(),
            old(self).asked() < u64::MAX,
        ensures
            final(self).wf(),
            final(self).cfg() == old(self).cfg(),
            planned(
                *old(self),
                *final(self),
                text::strs(argv@),
                hangup_proof,
                match facet_id {
                    Some(f) => Some(f@),
                    None => None,
                },
                unix,
                now,
                r,
            ),
    {
        if !self.cfg.enabled {
            return Err(SpawnError::Disabled);
        }
        self.reap(now);
        if self.live_count() >= self.cfg.max_sessions {
            return Err(SpawnError::TooMany);
        }
        self.counter = self.counter + 1;
        let id = id_of(unix, self.counter);
        let base = base_of(self.cfg.shell.as_str(), argv, hangup_proof);
        let unit: Option<String> = if !self.cfg.use_scope {
            None
        } else {
            match facet_id {
                Some(f) => Some(supervisor::facet_scope_name(f)),
                None => {
                    let mut u = "prism-term-".to_string();
                    u.append(id.as_str());
                    u.append(".scope");
                    Some(u)
                },
            }
        };
        let full = full_of(&unit, &base);
        Ok(Launch { id, unit, argv: full })
    }

    /// A session was spawned: keep it, in the place of any of the same id.
    pub fn register(&mut self, launch: Launch, title: &str, pid: u32, created_unix: u64)
        requires
            old(self).wf(),
        ensures
            final(self).wf(),
            final(self).cfg() == old(self).cfg(),
            final(self).asked() == old(self).asked(),
            final(self).sessions() == without(old(self).sessions(), launch.id@).push(
                started(
                    launch,
                    title@,
                    pid,
                    created_unix,
                    old(self).cfg().scrollback_bytes as nat,
                ),
            ),
    {
        let ghost want = started(
            launch,
            title@,
            pid,
            created_unix,
            self.cfg.scrollback_bytes as nat,
        );
        self.drop_id(launch.id.as_str());
        let s = Session {
            id: launch.id,
            title: title.to_string(),
            created_unix,
            unit: launch.unit,
            pid,
            scrollback: Ring::new(self.cfg.scrollback_bytes),
            attached: 0,
            exited: false,
            exit_code: None,
            ended_at: None,
        };
        assert(s@ =~= want);
        let ghost before = self.sessions();
        self.sessions.push(s);
        proof {
            assert(self.sessions() =~= before.push(want));
            let keep = |s: SessionView| s.id != launch.id@;
            lemma_filter_keeps(old(self).sessions(), keep);
            let g = before.push(want);
            assert forall|i: int, j: int| 0 <= i < j < g.len() implies #[trigger] g[i].id
                != #[trigger] g[j].id by {
                if j == before.len() {
                    assert(before.contains(before[i]));
                } else {
                    assert(before[i].id != before[j].id);
                }
            }
        }
    }

    /// Drop the session of an id, if there is one.
    fn drop_id(&mut self, id: &str)
        requires
            old(self).wf(),
        ensures
            final(self).wf(),
            final(self).cfg == old(self).cfg,
            final(self).counter == old(self).counter,
            final(self).sessions() == without(old(self).sessions(), id@),
    {
        let ghost start = self.sessions();
        let ghost keep = |s: SessionView| s.id != id@;
        let ghost mut k: int = 0;
        let mut i: usize = 0;
        proof {
            text::lemma_filter_none(start, keep);
            assert(self.sessions().take(0) =~= seq![]);
            assert(self.sessions().skip(0) =~= start.skip(0));
        }
        while i < self.sessions.len()
            invariant
                i <= self.sessions@.len(),
                self.cfg == old(self).cfg,
                self.counter == old(self).counter,
                keep == (|s: SessionView| s.id != id@),
                0 <= k <= start.len(),
                self.sessions().take(i as int) == start.take(k).filter(keep),
                self.sessions().skip(i as int) == start.skip(k),
            decreases self.sessions@.len() - i,
        {
            let ghost now_held = self.sessions();
            proof {
                lemma_step(now_held, i as int, start, k);
                assert(now_held[i as int] == self.sessions@[i as int]@);
                text::lemma_filter_next(start, keep, k);
            }
            if text::same(self.sessions[i].id.as_str(), id) {
                let gone = self.sessions.remove(i);
                assert(self.sessions() =~= now_held.remove(i as int));
            } else {
                assert(now_held.take(i + 1) =~= now_held.take(i as int).push(start[k]));
                i += 1;
            }
            proof {
                k = k + 1;
            }
        }
        proof {
            assert(self.sessions().skip(i as int).len() == 0);
            assert(start.take(k) =~= start);
            assert(self.sessions().take(i as int) =~= self.sessions());
            lemma_filter_keeps(start, keep);
        }
    }

    /// The place of a session.
    fn find(&self, id: &str) -> (r: Option<usize>)
        ensures
            match r {
                Some(i) => i < self.sessions().len() && self.sessions()[i as int].id == id@,
                None => forall|i: int|
                    0 <= i < self.sessions().len() ==> (#[trigger] self.sessions()[i]).id != id@,
            },
    {
        let mut i: usize = 0;
        while i < self.sessions.len()
            invariant
                i <= self.sessions@.len(),
                forall|j: int| 0 <= j < i ==> (#[trigger] self.sessions()[j]).id != id@,
            decreases self.sessions@.len() - i,
        {
            assert(self.sessions()[i as int] == self.sessions@[i as int]@);
            if text::same(self.sessions[i].id.as_str(), id) {
                return Some(i);
            }
            i += 1;
        }
        None
    }

    pub fn get(&self, id: &str) -> (r: Option<&Session>)
        ensures
            match r {
                Some(s) => self.sessions().contains(s@) && s@.id == id@,
                None => forall|i: int|
                    0 <= i < self.sessions().len() ==> (#[trigger] self.sessions()[i]).id != id@,
            },
    {
        match self.find(id) {
            Some(i) => {
                assert(self.sessions()[i as int] == self.sessions@[i as int]@);
                Some(&self.sessions[i])
            },
            None => None,
        }
    }

    /// A subscriber comes to a session: the scrollback to show it.
    pub fn attach(&mut self, id: &str) -> (r: Option<Vec<u8>>)
        requires
            old(self).wf(),
            forall|i: int|
                0 <= i < old(self).sessions().len() ==> (#[trigger] old(self).sessions()[i]).attached < usize::MAX,
        ensures
            final(self).wf(),
            final(self).cfg() == old(self).cfg(),
            final(self).asked() == old(self).asked(),
            match r {
                Some(h) => exists|i: int|
                    0 <= i < old(self).sessions().len() && (#[trigger] old(self).sessions()[i]).id == id@ && h@ == old(self).sessions()[i].kept && final(self).sessions() == old(self).sessions().update(
                        i,
                        SessionView {
                            attached: old(self).sessions()[i].attached + 1,
                            ..old(self).sessions()[i]
                        },
                    ),
                None => final(self).sessions() == old(self).sessions() && forall|i: int|
                    0 <= i < old(self).sessions().len() ==> (#[trigger] old(self).sessions()[i]).id != id@,
            },
    {
        match self.find(id) {
            Some(i) => {
                let ghost start = self.sessions();
                assert(start[i as int] == self.sessions@[i as int]@);
                let h = self.sessions[i].attach();
                proof {
                    let next = SessionView {
                        attached: start[i as int].attached + 1,
                        ..start[i as int]
                    };
                    assert(self.sessions() =~= start.update(i as int, next));
                    lemma_update_wf(start, i as int, next);
                }
                Some(h)
            },
            None => None,
        }
    }

    /// A subscriber goes from a session. The session stays.
    pub fn detach(&mut self, id: &str)
        requires
            old(self).wf(),
        ensures
            final(self).wf(),
            final(self).cfg() == old(self).cfg(),
            final(self).asked() == old(self).asked(),
            final(self).sessions() == left(old(self).sessions(), id@),
    {
        match self.find(id) {
            Some(i) => {
                let ghost start = self.sessions();
                assert(start[i as int] == self.sessions@[i as int]@);
                self.sessions[i].detach();
                proof {
                    let next = self.sessions@[i as int]@;
                    assert(self.sessions() =~= start.update(i as int, next));
                    lemma_update_wf(start, i as int, next);
                    assert(self.sessions() =~= left(start, id@)) by {
                        assert forall|j: int| 0 <= j < start.len() implies self.sessions()[j]
                            == left(start, id@)[j] by {
                            if j < i {
                                assert(start[j].id != start[i as int].id);
                            }
                            if i < j {
                                assert(start[i as int].id != start[j].id);
                            }
                        }
                    }
                }
            },
            None => {
                assert(self.sessions() =~= left(self.sessions(), id@));
            },
        }
    }

    /// Output came out of a session's terminal. False where it is no longer
    /// kept, or where its bytes can no longer be counted.
    pub fn output(&mut self, id: &str, bytes: &[u8]) -> (r: bool)
        requires
            old(self).wf(),
        ensures
            final(self).wf(),
            final(self).cfg() == old(self).cfg(),
            final(self).asked() == old(self).asked(),
            r ==> exists|i: int|
                0 <= i < old(self).sessions().len() && (#[trigger] old(self).sessions()[i]).id
                    == id@ && final(self).sessions() == old(self).sessions().update(
                    i,
                    fed(old(self).sessions()[i], bytes@),
                ),
            !r ==> final(self).sessions() == old(self).sessions() && forall|i: int|
                0 <= i < old(self).sessions().len() && (#[trigger] old(self).sessions()[i]).id
                    == id@ ==> old(self).sessions()[i].lost + old(self).sessions()[i].kept.len()
                    + bytes@.len() > u64::MAX,
    {
        match self.find(id) {
            Some(i) => {
                let ghost start = self.sessions();
                assert(start[i as int] == self.sessions@[i as int]@);
                assert(sound(start[i as int]));
                let count: u128 = self.sessions[i].scrollback.dropped() as u128
                    + self.sessions[i].scrollback.len() as u128 + bytes.len() as u128;
                if count > u64::MAX as u128 {
                    proof {
                        assert forall|j: int|
                            0 <= j < start.len() && (#[trigger] start[j]).id == id@ implies
                            start[j].lost + start[j].kept.len() + bytes@.len() > u64::MAX by {
                            if j < i {
                                assert(start[j].id != start[i as int].id);
                            }
                            if i < j {
                                assert(start[i as int].id != start[j].id);
                            }
                        }
                    }
                    return false;
                }
                self.sessions[i].output(bytes);
                proof {
                    let next = self.sessions@[i as int]@;
                    assert(next =~= fed(start[i as int], bytes@));
                    assert(self.sessions() =~= start.update(i as int, next));
                    lemma_update_wf(start, i as int, next);
                }
                true
            },
            None => false,
        }
    }

    /// A session's terminal closed.
    pub fn ended(&mut self, id: &str, now: u64)
        requires
            old(self).wf(),
        ensures
            final(self).wf(),
            final(self).cfg() == old(self).cfg(),
            final(self).asked() == old(self).asked(),
            final(self).sessions() == marked(old(self).sessions(), id@, now),
    {
        match self.find(id) {
            Some(i) => {
                let ghost start = self.sessions();
                assert(start[i as int] == self.sessions@[i as int]@);
                self.sessions[i].ended(now);
                proof {
                    let next = self.sessions@[i as int]@;
                    assert(self.sessions() =~= start.update(i as int, next));
                    lemma_update_wf(start, i as int, next);
                    assert(self.sessions() =~= marked(start, id@, now)) by {
                        assert forall|j: int| 0 <= j < start.len() implies self.sessions()[j]
                            == marked(start, id@, now)[j] by {
                            if j < i {
                                assert(start[j].id != start[i as int].id);
                            }
                            if i < j {
                                assert(start[i as int].id != start[j].id);
                            }
                        }
                    }
                }
            },
            None => {
                assert(self.sessions() =~= marked(self.sessions(), id@, now));
            },
        }
    }

    /// A session's exit status became known.
    pub fn exited_with(&mut self, id: &str, code: i32)
        requires
            old(self).wf(),
        ensures
            final(self).wf(),
            final(self).cfg() == old(self).cfg(),
            final(self).asked() == old(self).asked(),
            final(self).sessions() == coded(old(self).sessions(), id@, code),
    {
        match self.find(id) {
            Some(i) => {
                let ghost start = self.sessions();
                assert(start[i as int] == self.sessions@[i as int]@);
                self.sessions[i].exited_with(code);
                proof {
                    let next = self.sessions@[i as int]@;
                    assert(self.sessions() =~= start.update(i as int, next));
                    lemma_update_wf(start, i as int, next);
                    assert(self.sessions() =~= coded(start, id@, code)) by {
                        assert forall|j: int| 0 <= j < start.len() implies self.sessions()[j]
                            == coded(start, id@, code)[j] by {
                            if j < i {
                                assert(start[j].id != start[i as int].id);
                            }
                            if i < j {
                                assert(start[i as int].id != start[j].id);
                            }
                        }
                    }
                }
            },
            None => {
                assert(self.sessions() =~= coded(self.sessions(), id@, code));
            },
        }
    }

    /// What is told of all sessions, oldest first.
    pub fn list(&self) -> (r: Vec<SessionInfo>)
        ensures
            exists|o: Seq<usize>|
                #[trigger] by_age(self.sessions(), o) && info_views(r@) == order::arranged(
                    self.sessions(),
                    o,
                ).map_values(|s: SessionView| told(s)),
    {
        let ghost all = self.sessions();
        let mut keys: Vec<Vec<u64>> = Vec::new();
        let mut i: usize = 0;
        while i < self.sessions.len()
            invariant
                i <= self.sessions@.len(),
                all == self.sessions(),
                keys@.len() == i,
                forall|k: int| 0 <= k < i ==> (#[trigger] keys@[k])@ == seq![all[k].created_unix],
            decreases self.sessions@.len() - i,
        {
            let mut key: Vec<u64> = Vec::new();
            key.push(self.sessions[i].created_unix);
            assert(all[i as int] == self.sessions@[i as int]@);
            assert(key@ =~= seq![all[i as int].created_unix]);
            keys.push(key);
            i += 1;
        }
        let o = order::sort_positions(&keys);
        proof {
            let ks = order::key_views(keys@);
            assert forall|i: int, j: int| 0 <= i < j < o@.len() implies {
                let a = #[trigger] all[o@[i] as int].created_unix;
                let b = #[trigger] all[o@[j] as int].created_unix;
                a < b || (a == b && o@[i] < o@[j])
            } by {
                let x = o@[i] as int;
                let y = o@[j] as int;
                assert(order::before(ks, x, y));
                assert(ks[x] == keys@[x]@ && ks[y] == keys@[y]@);
                assert(ks[x][0] == all[x].created_unix);
                assert(ks[y][0] == all[y].created_unix);
                if order::less(ks[x], ks[y]) && ks[x][0] == ks[y][0] {
                    assert(ks[x].skip(1).len() == 0 && ks[y].skip(1).len() == 0);
                    assert(!order::less(ks[x].skip(1), ks[y].skip(1)));
                }
            }
            assert(by_age(all, o@));
        }
        let mut out: Vec<SessionInfo> = Vec::new();
        let ghost want = order::arranged(all, o@).map_values(|s: SessionView| told(s));
        let mut k: usize = 0;
        assert(info_views(out@) =~= want.take(0));
        while k < o.len()
            invariant
                k <= o.len(),
                all == self.sessions(),
                order::arranges(o@, all.len()),
                want == order::arranged(all, o@).map_values(|s: SessionView| told(s)),
                info_views(out@) == want.take(k as int),
            decreases o.len() - k,
        {
            let at: usize = o[k];
            assert(all[at as int] == self.sessions@[at as int]@);
            let info = self.sessions[at].info();
            let ghost before = out@;
            let ghost view = info@;
            out.push(info);
            assert(info_views(out@) =~= info_views(before).push(view));
            assert(want[k as int] == view);
            assert(want.take(k + 1) =~= want.take(k as int).push(view));
            k += 1;
        }
        assert(want.take(k as int) =~= want);
        out
    }

    /// Kill a session and remove it. This is the only operation that destroys:
    /// what is returned says what is to be destroyed.
    ///
    /// A scope is preferred, which is atomic across the entire process tree: a
    /// shell that launched a workload that forked workers dies in one operation,
    /// with no pid races and nothing orphaned.
    pub fn kill(&mut self, id: &str) -> (r: Option<Doomed>)
        requires
            old(self).wf(),
        ensures
            final(self).wf(),
            final(self).cfg() == old(self).cfg(),
            final(self).asked() == old(self).asked(),
            final(self).sessions() == without(old(self).sessions(), id@),
            match r {
                Some(d) => exists|i: int|
                    0 <= i < old(self).sessions().len() && (#[trigger] old(self).sessions()[i]).id == id@ && text::opt(d.unit) == old(self).sessions()[i].unit && d.pid == old(self).sessions()[i].pid,
                None => forall|i: int|
                    0 <= i < old(self).sessions().len() ==> (#[trigger] old(self).sessions()[i]).id != id@,
            },
    {
        let doomed = match self.find(id) {
            Some(i) => {
                assert(self.sessions()[i as int] == self.sessions@[i as int]@);
                Some(
                    Doomed {
                        unit: text::copy_opt(&self.sessions[i].unit),
                        pid: self.sessions[i].pid,
                    },
                )
            },
            None => None,
        };
        self.drop_id(id);
        doomed
    }

    /// Drop exited sessions once their linger has elapsed.
    pub fn reap(&mut self, now: u64)
        requires
            old(self).wf(),
        ensures
            final(self).wf(),
            final(self).cfg() == old(self).cfg(),
            final(self).asked() == old(self).asked(),
            final(self).sessions() == reaped(old(self).sessions(), now),
    {
        let ghost start = self.sessions();
        let ghost keep = |s: SessionView| lingers(s, now);
        let ghost mut k: int = 0;
        let mut i: usize = 0;
        proof {
            text::lemma_filter_none(start, keep);
            assert(self.sessions().take(0) =~= seq![]);
            assert(self.sessions().skip(0) =~= start.skip(0));
        }
        while i < self.sessions.len()
            invariant
                i <= self.sessions@.len(),
                self.cfg == old(self).cfg,
                self.counter == old(self).counter,
                keep == (|s: SessionView| lingers(s, now)),
                0 <= k <= start.len(),
                self.sessions().take(i as int) == start.take(k).filter(keep),
                self.sessions().skip(i as int) == start.skip(k),
            decreases self.sessions@.len() - i,
        {
            let ghost now_held = self.sessions();
            proof {
                lemma_step(now_held, i as int, start, k);
                assert(now_held[i as int] == self.sessions@[i as int]@);
                text::lemma_filter_next(start, keep, k);
            }
            if !session_lingers(&self.sessions[i], now) {
                let gone = self.sessions.remove(i);
                assert(self.sessions() =~= now_held.remove(i as int));
            } else {
                assert(now_held.take(i + 1) =~= now_held.take(i as int).push(start[k]));
                i += 1;
            }
            proof {
                k = k + 1;
            }
        }
        proof {
            assert(self.sessions().skip(i as int).len() == 0);
            assert(start.take(k) =~= start);
            assert(self.sessions().take(i as int) =~= self.sessions());
            lemma_filter_keeps(start, keep);
        }
    }

    /// Number of sessions that have not exited.
    pub fn live_count(&self) -> (r: usize)
        ensures
            r == live(self.sessions()).len(),
    {
        let ghost all = self.sessions();
        let ghost keep = |s: SessionView| !s.exited;
        let mut n: usize = 0;
        let mut i: usize = 0;
        proof {
            text::lemma_filter_none(all, keep);
        }
        while i < self.sessions.len()
            invariant
                i <= self.sessions@.len(),
                all == self.sessions(),
                keep == (|s: SessionView| !s.exited),
                n == all.take(i as int).filter(keep).len(),
                n <= i,
            decreases self.sessions@.len() - i,
        {
            proof {
                text::lemma_filter_next(all, keep, i as int);
                assert(all[i as int] == self.sessions@[i as int]@);
            }
            if !self.sessions[i].has_exited() {
                n += 1;
            }
            i += 1;
        }
        assert(all.take(i as int) =~= all);
        n
    }

    /// Reduce scrollback across all sessions — the de-escalation path.
    pub fn shrink_all_scrollback(&mut self, cap: usize)
        requires
            old(self).wf(),
        ensures
            final(self).wf(),
            final(self).cfg() == old(self).cfg(),
            final(self).asked() == old(self).asked(),
            final(self).sessions() == old(self).sessions().map_values(
                |s: SessionView| shrunk(s, cap as nat),
            ),
    {
        let ghost start = self.sessions();
        let ghost cut = |s: SessionView| shrunk(s, cap as nat);
        let mut i: usize = 0;
        while i < self.sessions.len()
            invariant
                i <= self.sessions@.len(),
                self.sessions@.len() == start.len(),
                self.cfg == old(self).cfg,
                self.counter == old(self).counter,
                cut == (|s: SessionView| shrunk(s, cap as nat)),
                ids_differ(start),
                all_sound(start),
                forall|j: int|
                    0 <= j < start.len() ==> (#[trigger] self.sessions()[j]) == (if j < i {
                        shrunk(start[j], cap as nat)
                    } else {
                        start[j]
                    }),
            decreases self.sessions@.len() - i,
        {
            let ghost held = self.sessions();
            assert(held[i as int] == self.sessions@[i as int]@);
            assert(held[i as int] == start[i as int]);
            assert(sound(start[i as int]));
            self.sessions[i].set_scrollback_capacity(cap);
            proof {
                assert(self.sessions() =~= held.update(
                    i as int,
                    shrunk(start[i as int], cap as nat),
                ));
                assert forall|j: int| 0 <= j < start.len() implies (#[trigger] self.sessions()[j])
                    == (if j < i + 1 {
                    shrunk(start[j], cap as nat)
                } else {
                    start[j]
                }) by {
                    assert(held[j] == (if j < i {
                        shrunk(start[j], cap as nat)
                    } else {
                        start[j]
                    }));
                }
            }
            i += 1;
        }
        proof {
            assert(self.sessions() =~= start.map_values(cut));
            let v = self.sessions();
            assert forall|a: int, b: int| 0 <= a < b < v.len() implies #[trigger] v[a].id
                != #[trigger] v[b].id by {
                assert(v[a] == shrunk(start[a], cap as nat));
                assert(v[b] == shrunk(start[b], cap as nat));
                assert(start[a].id != start[b].id);
            }
            assert forall|a: int| 0 <= a < v.len() implies sound(#[trigger] v[a]) by {
                assert(v[a] == shrunk(start[a], cap as nat));
                assert(sound(start[a]));
            }
        }
    }
}

proof fn lemma_update_wf(v: Seq<SessionView>, i: int, s: SessionView)
    requires
        ids_differ(v),
        all_sound(v),
        0 <= i < v.len(),
        s.id == v[i].id,
        sound(s),
    ensures
        ids_differ(v.update(i, s)),
        all_sound(v.update(i, s)),
{
    let w = v.update(i, s);
    assert forall|a: int, b: int| 0 <= a < b < w.len() implies #[trigger] w[a].id
        != #[trigger] w[b].id by {
        assert(w[a].id == v[a].id);
        assert(w[b].id == v[b].id);
        assert(v[a].id != v[b].id);
    }
    assert forall|a: int| 0 <= a < w.len() implies sound(#[trigger] w[a]) by {
        assert(a == i || w[a] == v[a]);
    }
}

pub open spec fn info_views(v: Seq<SessionInfo>) -> Seq<InfoView> {
    v.map_values(|s: SessionInfo| s@)
}

/// A session after some output.
pub open spec fn fed(s: SessionView, bytes: Seq<u8>) -> SessionView {
    let kept = ring::tail(s.kept + bytes, s.cap);
    SessionView { kept, lost: (s.lost + s.kept.len() + bytes.len() - kept.len()) as nat, ..s }
}

/// A session after a subscriber went.
pub open spec fn unattached(s: SessionView) -> SessionView {
    SessionView {
        attached: if s.attached > 0 {
            (s.attached - 1) as nat
        } else {
            0
        },
        ..s
    }
}

/// The sessions after a subscriber went from one.
pub open spec fn left(v: Seq<SessionView>, id: Seq<char>) -> Seq<SessionView> {
    v.map_values(
        |s: SessionView|
            if s.id == id {
                unattached(s)
            } else {
                s
            },
    )
}

/// The sessions after the terminal of one closed.
pub open spec fn marked(v: Seq<SessionView>, id: Seq<char>, now: u64) -> Seq<SessionView> {
    v.map_values(
        |s: SessionView|
            if s.id == id {
                SessionView { exited: true, ended_at: Some(now), ..s }
            } else {
                s
            },
    )
}

/// The sessions after the exit status of one became known.
pub open spec fn coded(v: Seq<SessionView>, id: Seq<char>, code: i32) -> Seq<SessionView> {
    v.map_values(
        |s: SessionView|
            if s.id == id {
                SessionView { exit_code: Some(code), ..s }
            } else {
                s
            },
    )
}

/// `o` orders all sessions by when they were created; those of one second keep
/// their order.
pub open spec fn by_age(v: Seq<SessionView>, o: Seq<usize>) -> bool {
    &&& order::arranges(o, v.len())
    &&& forall|i: int, j: int|
        0 <= i < j < o.len() ==> {
            let a = #[trigger] v[o[i] as int].created_unix;
            let b = #[trigger] v[o[j] as int].created_unix;
            a < b || (a == b && o[i] < o[j])
        }
}

/// What asking for a session comes to. Nothing is done where sessions are
/// disabled; else those that lingered long enough go first, and a new one is
/// planned unless as many are live as may be.
pub open spec fn planned(
    before: SessionManager,
    after: SessionManager,
    argv: Seq<Seq<char>>,
    hangup_proof: bool,
    facet: Option<Seq<char>>,
    unix: u64,
    now: u64,
    r: Result<Launch, SpawnError>,
) -> bool {
    let cfg = before.cfg();
    let kept = reaped(before.sessions(), now);
    if !cfg.enabled {
        &&& r == Err::<Launch, SpawnError>(SpawnError::Disabled)
        &&& after.sessions() == before.sessions()
        &&& after.asked() == before.asked()
    } else if live(kept).len() >= cfg.max_sessions {
        &&& r == Err::<Launch, SpawnError>(SpawnError::TooMany)
        &&& after.sessions() == kept
        &&& after.asked() == before.asked()
    } else {
        &&& r is Ok
        &&& after.sessions() == kept
        &&& after.asked() == before.asked() + 1
        &&& r->Ok_0.id@ == session_id(unix, after.asked())
        &&& text::opt(r->Ok_0.unit) == unit_of(cfg.use_scope, facet, r->Ok_0.id@)
        &&& text::strs(r->Ok_0.argv@) == full_argv(
            text::opt(r->Ok_0.unit),
            base_argv(cfg.shell, argv, hangup_proof),
        )
    }
}

// ---------------------------------------------------------------------------
// Laws
// ---------------------------------------------------------------------------

/// No two sessions are given the same id, whenever they are asked for.
pub proof fn ids_are_unique(unix: u64, number: u64, other_unix: u64, other: u64)
    requires
        session_id(unix, number) == session_id(other_unix, other),
    ensures
        number == other,
{
    reveal_strlit("-");
    let a = session_id(unix, number);
    let b = session_id(other_unix, other);
    lemma_last_dash(text::hex(unix as nat), text::dec(number as nat));
    lemma_last_dash(text::hex(other_unix as nat), text::dec(other as nat));
    text::lemma_dec(number as nat);
    text::lemma_dec(other as nat);
    lemma_no_dash(number as nat);
    lemma_no_dash(other as nat);
    assert(text::hex(unix as nat).len() == text::hex(other_unix as nat).len());
    assert(text::dec(number as nat) =~= a.skip(text::hex(unix as nat).len() as int + 1));
    assert(text::dec(other as nat) =~= b.skip(text::hex(other_unix as nat).len() as int + 1));
    text::lemma_dec_injective(number as nat, other as nat);
}

proof fn lemma_no_dash(n: nat)
    ensures
        !text::dec(n).contains('-'),
{
    text::lemma_dec(n);
    assert forall|i: int| 0 <= i < text::dec(n).len() implies text::dec(n)[i] != '-' by {
        assert(text::is_digit(text::dec(n)[i]));
    }
}

proof fn lemma_last_dash(h: Seq<char>, d: Seq<char>)
    ensures
        !d.contains('-') ==> text::rpos(h + "-"@ + d, '-') == h.len(),
{
    reveal_strlit("-");
    let s = h + "-"@ + d;
    if !d.contains('-') {
        assert(s[h.len() as int] == '-');
        assert forall|j: int| h.len() < j < s.len() implies s[j] != '-' by {
            assert(s[j] == d[j - h.len() - 1]);
            assert(d.contains(d[j - h.len() - 1]));
        }
        text::lemma_rpos_is(s, '-', h.len() as int);
    }
}

/// A session that runs is never reaped.
pub proof fn the_living_are_not_reaped(s: SessionView, now: u64)
    requires
        !s.exited,
    ensures
        lingers(s, now),
{
}

/// An exited session lingers so that its error can be read, and is gone once
/// the linger is over.
pub proof fn the_exited_linger(s: SessionView, ended: u64, now: u64)
    requires
        s.exited,
        s.ended_at == Some(ended),
        now >= ended,
    ensures
        lingers(s, now) <==> now - ended < 300_000_000_000,
{
}

/// Closing a window kills nothing: every session is as it was, but for who
/// watches it.
pub proof fn detaching_kills_nothing(v: Seq<SessionView>, id: Seq<char>, i: int)
    requires
        0 <= i < v.len(),
    ensures
        left(v, id).len() == v.len(),
        (SessionView { attached: 0, ..left(v, id)[i] }) == (SessionView { attached: 0, ..v[i] }),
{
}

/// A killed session is gone, and no other is.
pub proof fn killing_takes_one(v: Seq<SessionView>, id: Seq<char>, i: int)
    requires
        0 <= i < v.len(),
    ensures
        without(v, id).contains(v[i]) <==> v[i].id != id,
    decreases v.len(),
{
    let keep = |s: SessionView| s.id != id;
    lemma_filter_keeps(v, keep);
    if v[i].id != id {
        v.lemma_filter_contains(keep, i);
    }
}

/// A command that is to outlive its terminal is what is run, whole and last,
/// behind one that ignores hangup.
pub proof fn a_hangup_proof_command_is_run_whole(shell: Seq<char>, argv: Seq<Seq<char>>)
    requires
        argv.len() > 0,
    ensures
        base_argv(shell, argv, true).skip(4) == argv,
        base_argv(shell, argv, true)[2] == "trap \"\" HUP; exec \"$@\""@,
        base_argv(shell, argv, false) == argv,
{
    assert(base_argv(shell, argv, true).skip(4) =~= argv);
}

/// A scope changes where a command runs and not what it is.
pub proof fn a_scope_runs_the_same_command(unit: Seq<char>, base: Seq<Seq<char>>)
    ensures
        full_argv(Some(unit), base).skip(7) == base,
        full_argv(Some(unit), base)[6] == "--"@,
        full_argv(None, base) == base,
{
    assert(full_argv(Some(unit), base).skip(7) =~= base);
}

proof fn lemma_live_are_kept(v: Seq<SessionView>, now: u64)
    ensures
        live(reaped(v, now)) == live(v),
    decreases v.len(),
{
    reveal(Seq::filter);
    if v.len() > 0 {
        let d = v.drop_last();
        let s = v.last();
        lemma_live_are_kept(d, now);
        if lingers(s, now) {
            let r = reaped(d, now);
            assert(reaped(v, now) == r.push(s));
            assert(r.push(s).drop_last() =~= r);
        } else {
            assert(s.exited);
        }
    }
}

/// A session more counts against the limit exactly where it has not exited.
pub proof fn only_the_living_count(v: Seq<SessionView>, s: SessionView)
    ensures
        live(v.push(s)).len() == live(v).len() + (if s.exited {
            0nat
        } else {
            1
        }),
        live(seq![]).len() == 0,
{
    reveal(Seq::filter);
    assert(v.push(s).drop_last() =~= v);
}

/// What is planned: a session starts exactly where sessions are enabled and fewer
/// than the limit live, whatever has exited and lingers; else it is refused, and
/// why is told. Starting or refusing one ends nothing that lives: all that goes is
/// what exited long enough ago.
pub proof fn a_session_starts_while_there_is_room(
    before: SessionManager,
    after: SessionManager,
    argv: Seq<Seq<char>>,
    hangup_proof: bool,
    facet: Option<Seq<char>>,
    unix: u64,
    now: u64,
    r: Result<Launch, SpawnError>,
)
    requires
        planned(before, after, argv, hangup_proof, facet, unix, now, r),
    ensures
        r is Ok <==> before.cfg().enabled && live(before.sessions()).len()
            < before.cfg().max_sessions,
        r == Err::<Launch, SpawnError>(SpawnError::Disabled) <==> !before.cfg().enabled,
        r == Err::<Launch, SpawnError>(SpawnError::TooMany) <==> before.cfg().enabled && live(
            before.sessions(),
        ).len() >= before.cfg().max_sessions,
        live(after.sessions()) == live(before.sessions()),
        r is Ok ==> after.asked() == before.asked() + 1,
{
    lemma_live_are_kept(before.sessions(), now);
}

/// What is reaped is what exited five minutes ago or longer, and nothing else.
pub proof fn only_the_long_gone_are_reaped(v: Seq<SessionView>, now: u64, s: SessionView)
    ensures
        reaped(v, now).contains(s) <==> v.contains(s) && !(s.exited && (s.ended_at matches Some(t)
            && now >= t + 300_000_000_000)),
{
    lemma_filter_holds(v, |x: SessionView| lingers(x, now), s);
}

proof fn lemma_filter_holds(v: Seq<SessionView>, keep: spec_fn(SessionView) -> bool, x: SessionView)
    ensures
        v.filter(keep).contains(x) <==> v.contains(x) && keep(x),
    decreases v.len(),
{
    reveal(Seq::filter);
    let f = v.filter(keep);
    if v.len() > 0 {
        let d = v.drop_last();
        let g = d.filter(keep);
        lemma_filter_holds(d, keep, x);
        if f.contains(x) {
            let i = choose|i: int| 0 <= i < f.len() && f[i] == x;
            if i < g.len() {
                assert(g[i] == x);
                let j = choose|j: int| 0 <= j < d.len() && d[j] == x;
                assert(v[j] == x);
            } else {
                assert(v[v.len() - 1] == x);
            }
        }
        if v.contains(x) && keep(x) {
            let j = choose|j: int| 0 <= j < v.len() && v[j] == x;
            if j < d.len() {
                assert(d[j] == x);
                let i = choose|i: int| 0 <= i < g.len() && g[i] == x;
                assert(f[i] == x);
            } else {
                assert(f[f.len() - 1] == x);
            }
        }
    }
}

/// What a session is launched with. Without a command it is a login shell; in a
/// scope it is that same command behind `systemd-run`, which names the unit and
/// has its memory accounted for.
pub proof fn what_a_session_is_launched_with(
    shell: Seq<char>,
    argv: Seq<Seq<char>>,
    unit: Seq<char>,
    hangup_proof: bool,
)
    requires
        argv.len() > 0,
    ensures
        base_argv(shell, seq![], hangup_proof) == seq![shell, "-l"@],
        base_argv(shell, argv, false) == argv,
        base_argv(shell, argv, true) == seq![
            "/bin/sh"@,
            "-c"@,
            "trap \"\" HUP; exec \"$@\""@,
            "prism"@,
        ] + argv,
        full_argv(None, argv) == argv,
        full_argv(Some(unit), argv) == seq![
            "systemd-run"@,
            "--user"@,
            "--scope"@,
            "--quiet"@,
            "--unit="@ + unit,
            "--property=MemoryAccounting=yes"@,
            "--"@,
        ] + argv,
{
}

/// What a session's scope is called: after its facet where it is one's, else after
/// the session; without scopes there is none.
pub proof fn a_scope_is_called_after_what_it_holds(facet: Seq<char>, id: Seq<char>)
    ensures
        unit_of(true, Some(facet), id) == Some("prism-facet-"@ + facet + ".scope"@),
        unit_of(true, None, id) == Some("prism-term-"@ + id + ".scope"@),
        unit_of(false, Some(facet), id) is None,
        unit_of(false, None, id) is None,
{
}

/// What comes out of a session is kept up to its capacity, the newest last; what
/// does not fit is counted as lost, byte for byte; and nothing else about the
/// session changes.
pub proof fn output_is_kept_or_counted(s: SessionView, bytes: Seq<u8>, i: int)
    requires
        sound(s),
    ensures
        ({
            let t = fed(s, bytes);
            let all = s.kept + bytes;
            &&& t.lost + t.kept.len() == s.lost + s.kept.len() + bytes.len()
            &&& all.len() <= s.cap ==> t.kept == all
            &&& all.len() > s.cap ==> t.kept.len() == s.cap
            &&& 0 <= i < t.kept.len() ==> t.kept[i] == all[all.len() - t.kept.len() + i]
            &&& t == (SessionView { kept: t.kept, lost: t.lost, ..s })
        }),
{
}

/// A smaller capacity drops the oldest bytes and counts them as lost; nothing else
/// about the session changes but the capacity.
pub proof fn shrinking_drops_the_oldest(s: SessionView, cap: nat, i: int)
    ensures
        ({
            let t = shrunk(s, cap);
            &&& t.cap == cap
            &&& t.lost + t.kept.len() == s.lost + s.kept.len()
            &&& s.kept.len() <= cap ==> t.kept == s.kept
            &&& s.kept.len() > cap ==> t.kept.len() == cap
            &&& 0 <= i < t.kept.len() ==> t.kept[i] == s.kept[s.kept.len() - t.kept.len() + i]
            &&& t == (SessionView { kept: t.kept, cap, lost: t.lost, ..s })
        }),
{
}

/// Detaching takes one watcher away from the session that it is of, an end and an
/// exit code are noted at the session that they are of, and all others stay as
/// they are.
pub proof fn only_the_session_named_changes(
    v: Seq<SessionView>,
    id: Seq<char>,
    now: u64,
    code: i32,
    i: int,
)
    requires
        0 <= i < v.len(),
    ensures
        v[i].id != id ==> left(v, id)[i] == v[i] && marked(v, id, now)[i] == v[i] && coded(
            v,
            id,
            code,
        )[i] == v[i],
        v[i].id == id && v[i].attached > 0 ==> left(v, id)[i].attached == v[i].attached - 1,
        v[i].id == id && v[i].attached == 0 ==> left(v, id)[i] == v[i],
        v[i].id == id ==> marked(v, id, now)[i] == (SessionView {
            exited: true,
            ended_at: Some(now),
            ..v[i]
        }),
        v[i].id == id ==> coded(v, id, code)[i] == (SessionView { exit_code: Some(code), ..v[i] }),
{
}

/// A list is by age: the oldest first, and every session is in it.
pub proof fn a_list_is_by_age(v: Seq<SessionView>, o: Seq<usize>, k: int)
    requires
        by_age(v, o),
        0 <= k < v.len(),
    ensures
        order::arranged(v, o).len() == v.len(),
        order::arranged(v, o).contains(v[k]),
        forall|i: int, j: int|
            0 <= i < j < v.len() ==> (#[trigger] order::arranged(v, o)[i]).created_unix <= (
            #[trigger] order::arranged(v, o)[j]).created_unix,
{
    let p = order::nothing_is_left_out(o, v.len(), k);
    assert(order::arranged(v, o)[p] == v[k]);
    assert forall|i: int, j: int| 0 <= i < j < v.len() implies (#[trigger] order::arranged(
        v,
        o,
    )[i]).created_unix <= (#[trigger] order::arranged(v, o)[j]).created_unix by {
        assert(v[o[i] as int].created_unix <= v[o[j] as int].created_unix);
    }
}

/// The shell is the account's, where it names one; else that of the environment;
/// else the one that every machine has.
pub proof fn the_shell_is_the_accounts(account: &str, env: &str)
    ensures
        account@.len() > 0 ==> shell_of(Some(account), Some(env)) == account@ && shell_of(
            Some(account),
            None,
        ) == account@,
        account@.len() == 0 ==> shell_of(Some(account), Some(env)) == env@,
        shell_of(None, Some(env)) == env@,
        shell_of(None, None) == "/bin/sh"@,
{
}

/// What is told of a session is what it is.
pub proof fn a_session_is_told_as_it_is(s: SessionView)
    ensures
        ({
            let t = told(s);
            &&& t.id == s.id && t.title == s.title && t.pid == s.pid
            &&& t.created_unix == s.created_unix && t.attached == s.attached
            &&& t.exited == s.exited && t.exit_code == s.exit_code
            &&& t.scrollback_bytes == s.kept.len() && t.scrollback_dropped == s.lost
        }),
{
}

} // verus!
