//! Blast-radius bounds for anything that terminates a process.
//!
//! Prism's first stated goal is that the machine never becomes unreachable. A
//! daemon whose job is killing processes is therefore one bad pid away from
//! being the cause of the outage it exists to prevent.
//!
//! A guard on the *caller* is not enough. Every pid is validated at the point of
//! signalling, against rules that do not depend on any caller having been
//! careful:
//!
//! 1. it must be a single, positive, real pid — never a process group;
//! 2. it must not be init, ourselves, or anything we descend from;
//! 3. it must not be a process the machine's reachability depends on.
//!
//! The third rule is deliberately conservative. Refusing to kill something Prism
//! should have killed costs a warning; killing `sshd` from 60 miles away costs
//! the weekend.

use crate::text;
use vstd::prelude::*;

verus! {

/// Process names that must never be signalled, whatever a caller asks.
///
/// These are the processes that keep the machine reachable and recoverable. The
/// list is intentionally about *reachability*, not importance: a database being
/// killed is a bad day, but `tailscaled` being killed means nobody can log in to
/// notice.
pub open spec fn default_protected() -> Seq<Seq<char>> {
    seq![
        // Init and service management — killing these ends everything.
        "systemd"@,
        "init"@,
        // Remote access. The whole point of the exercise.
        "sshd"@,
        "tailscaled"@,
        "tailscale"@,
        // Display stack. Losing this severs Sunshine/Moonlight and any GUI path.
        "Hyprland"@,
        "sway"@,
        "gnome-shell"@,
        "kwin_wayland"@,
        "Xorg"@,
        "sddm"@,
        "gdm"@,
        "greetd"@,
        // Streaming host.
        "sunshine"@,
        // Prism itself.
        "prismd"@,
    ]
}

/// The names that are protected unless the operator adds more.
pub fn default_names() -> (r: Vec<String>)
    ensures
        text::strs(r@) == default_protected(),
{
    let mut out: Vec<String> = Vec::new();
    out.push("systemd".to_string());
    out.push("init".to_string());
    out.push("sshd".to_string());
    out.push("tailscaled".to_string());
    out.push("tailscale".to_string());
    out.push("Hyprland".to_string());
    out.push("sway".to_string());
    out.push("gnome-shell".to_string());
    out.push("kwin_wayland".to_string());
    out.push("Xorg".to_string());
    out.push("sddm".to_string());
    out.push("gdm".to_string());
    out.push("greetd".to_string());
    out.push("sunshine".to_string());
    out.push("prismd".to_string());
    assert(text::strs(out@) =~= default_protected());
    out
}

#[derive(Debug, Clone, PartialEq, Eq)]
pub enum Refusal {
    /// Would not have targeted a single process.
    NotASinglePid,
    /// pid 1.
    Init,
    /// Prism's own process.
    SelfPid,
    /// A process Prism descends from — killing it takes Prism with it.
    Ancestor,
    /// Matched the protected-name list.
    Protected(String),
}

impl Refusal {
    pub open spec fn text(&self) -> Seq<char> {
        match *self {
            Refusal::NotASinglePid =>
                "not a single positive pid (would signal a process group)"@,
            Refusal::Init => "pid 1"@,
            Refusal::SelfPid => "prism's own process"@,
            Refusal::Ancestor => "an ancestor of prism"@,
            Refusal::Protected(name) => "`"@ + name@ + "` is protected"@,
        }
    }

    pub fn reason(&self) -> (r: String)
        ensures
            r@ == self.text(),
    {
        match self {
            Refusal::NotASinglePid =>
                "not a single positive pid (would signal a process group)".to_string(),
            Refusal::Init => "pid 1".to_string(),
            Refusal::SelfPid => "prism's own process".to_string(),
            Refusal::Ancestor => "an ancestor of prism".to_string(),
            Refusal::Protected(name) => {
                let mut out = "`".to_string();
                out.append(name.as_str());
                out.append("` is protected");
                out
            },
        }
    }
}

/// Who is whose parent: pairs of a process and its parent, as `/proc` gave them.
pub open spec fn parent_in(table: Seq<(u32, u32)>, pid: u32) -> Option<u32>
    decreases table.len(),
{
    if table.len() == 0 {
        None
    } else if table[0].0 == pid {
        Some(table[0].1)
    } else {
        parent_in(table.skip(1), pid)
    }
}

/// Going up from `current` by at most `steps` processes comes upon `pid`. The
/// way ends at a process without a known parent, at one that is its own parent,
/// and at pid 0.
pub open spec fn climbs_to(table: Seq<(u32, u32)>, current: u32, pid: u32, steps: nat) -> bool
    decreases steps,
{
    if steps == 0 {
        false
    } else if current == pid {
        true
    } else {
        match parent_in(table, current) {
            Some(p) => if p != current && p != 0 {
                climbs_to(table, p, pid, (steps - 1) as nat)
            } else {
                false
            },
            None => false,
        }
    }
}

/// `pid` is where going up from `from` leads: `from` itself or a process that it
/// descends from, however far up. A way longer than the table is a cycle, which
/// would otherwise hang the daemon inside a safety check, and comes upon nothing
/// new.
pub open spec fn is_above(table: Seq<(u32, u32)>, from: u32, pid: u32) -> bool {
    climbs_to(table, from, pid, table.len() + 1)
}

pub struct SafetyGuard {
    protected: Vec<String>,
    self_pid: u32,
}

/// Why a pid may not be signalled, or `None` where it may.
pub open spec fn refused(
    protected: Set<Seq<char>>,
    self_pid: u32,
    pid: u32,
    parents: Seq<(u32, u32)>,
    comm: Option<Seq<char>>,
) -> Option<RefusalView> {
    if pid == 0 || pid > i32::MAX {
        Some(RefusalView::NotASinglePid)
    } else if pid == 1 {
        Some(RefusalView::Init)
    } else if pid == self_pid {
        Some(RefusalView::SelfPid)
    } else if is_above(parents, self_pid, pid) {
        Some(RefusalView::Ancestor)
    } else if comm is Some && protected.contains(comm->0) {
        Some(RefusalView::Protected(comm->0))
    } else {
        None
    }
}

pub enum RefusalView {
    NotASinglePid,
    Init,
    SelfPid,
    Ancestor,
    Protected(Seq<char>),
}

impl View for Refusal {
    type V = RefusalView;

    open spec fn view(&self) -> RefusalView {
        match *self {
            Refusal::NotASinglePid => RefusalView::NotASinglePid,
            Refusal::Init => RefusalView::Init,
            Refusal::SelfPid => RefusalView::SelfPid,
            Refusal::Ancestor => RefusalView::Ancestor,
            Refusal::Protected(name) => RefusalView::Protected(name@),
        }
    }
}

fn parent_of_in(table: &Vec<(u32, u32)>, pid: u32) -> (r: Option<u32>)
    ensures
        r == parent_in(table@, pid),
{
    let mut i: usize = 0;
    assert(table@.skip(0) =~= table@);
    while i < table.len()
        invariant
            i <= table.len(),
            parent_in(table@.skip(i as int), pid) == parent_in(table@, pid),
        decreases table.len() - i,
    {
        assert(table@.skip(i as int)[0] == table@[i as int]);
        assert(table@.skip(i as int).skip(1) =~= table@.skip(i + 1));
        if table[i].0 == pid {
            return Some(table[i].1);
        }
        i += 1;
    }
    None
}

impl SafetyGuard {
    /// The names that are protected.
    pub closed spec fn protected(&self) -> Set<Seq<char>> {
        text::strs(self.protected@).to_set()
    }

    pub closed spec fn self_pid(&self) -> u32 {
        self.self_pid
    }

    pub fn new(protected: Vec<String>, self_pid: u32) -> (r: Self)
        ensures
            r.protected() == text::strs(protected@).to_set(),
            r.self_pid() == self_pid,
    {
        SafetyGuard { protected, self_pid }
    }

    /// The guard over the default names.
    pub fn with_defaults(self_pid: u32) -> (r: Self)
        ensures
            r.protected() == default_protected().to_set(),
            r.self_pid() == self_pid,
    {
        SafetyGuard::new(default_names(), self_pid)
    }

    /// Add extra protected names, e.g. from operator config.
    pub fn protect(&mut self, name: String)
        ensures
            final(self).protected() == old(self).protected().insert(name@),
            final(self).self_pid() == old(self).self_pid(),
    {
        let ghost before = text::strs(self.protected@);
        self.protected.push(name);
        proof {
            let now = text::strs(self.protected@);
            assert(now =~= before.push(name@));
            assert(now.to_set() =~= before.to_set().insert(name@)) by {
                assert forall|x: Seq<char>|
                    now.contains(x) <==> before.to_set().insert(name@).contains(x) by {
                    if now.contains(x) {
                        let k = choose|k: int| 0 <= k < now.len() && now[k] == x;
                        if k < before.len() {
                            assert(before[k] == x);
                        }
                    }
                    if before.contains(x) {
                        let k = choose|k: int| 0 <= k < before.len() && before[k] == x;
                        assert(now[k] == x);
                    }
                    assert(now[before.len() as int] == name@);
                }
            }
        }
    }

    pub fn is_protected_name(&self, comm: &str) -> (r: bool)
        ensures
            r == self.protected().contains(comm@),
    {
        text::any_same(&self.protected, comm)
    }

    /// `Ok(pid)` if this pid may be signalled, `Err(reason)` otherwise.
    ///
    /// `parents` holds who is whose parent and `comm` the name of the process,
    /// where it could be read.
    ///
    /// Returns the validated `i32` so callers cannot re-derive it incorrectly:
    /// the only way to obtain a signalable pid is to pass this check.
    pub fn check(&self, pid: u32, parents: &Vec<(u32, u32)>, comm: Option<&str>) -> (r: Result<
        i32,
        Refusal,
    >)
        ensures
            match r {
                Ok(p) => p == pid && p > 1 && refused(
                    self.protected(),
                    self.self_pid(),
                    pid,
                    parents@,
                    seen(comm),
                ) is None,
                Err(why) => refused(
                    self.protected(),
                    self.self_pid(),
                    pid,
                    parents@,
                    seen(comm),
                ) == Some(why@),
            },
    {
        // A pid that does not survive the cast as a positive value is not one
        // process. 0 targets our own group, -1 targets everything we own, and
        // anything below -1 targets a group.
        if pid == 0 || pid > 0x7fff_ffff {
            return Err(Refusal::NotASinglePid);
        }
        if pid == 1 {
            return Err(Refusal::Init);
        }
        if pid == self.self_pid {
            return Err(Refusal::SelfPid);
        }
        if self.is_ancestor(pid, parents) {
            return Err(Refusal::Ancestor);
        }
        match comm {
            Some(name) => {
                if self.is_protected_name(name) {
                    return Err(Refusal::Protected(name.to_string()));
                }
            },
            None => {},
        }
        Ok(pid as i32)
    }

    /// Walk our own parent chain looking for `pid`.
    ///
    /// Killing an ancestor kills Prism, so signalling "upward" is exactly how a
    /// local mistake becomes a session-wide one.
    fn is_ancestor(&self, pid: u32, parents: &Vec<(u32, u32)>) -> (r: bool)
        ensures
            r == is_above(parents@, self.self_pid(), pid),
    {
        let mut current: u32 = self.self_pid;
        let mut left: usize = parents.len();
        while left > 0
            invariant
                climbs_to(parents@, current, pid, (left + 1) as nat) == is_above(
                    parents@,
                    self.self_pid(),
                    pid,
                ),
            decreases left,
        {
            if current == pid {
                return true;
            }
            match parent_of_in(parents, current) {
                Some(parent) => {
                    if parent != current && parent != 0 {
                        current = parent;
                    } else {
                        return false;
                    }
                },
                None => {
                    return false;
                },
            }
            left -= 1;
        }
        proof {
            reveal_with_fuel(climbs_to, 2);
        }
        current == pid
    }
}

pub open spec fn seen(comm: Option<&str>) -> Option<Seq<char>> {
    match comm {
        Some(c) => Some(c@),
        None => None,
    }
}

/// The first `PPid:` line that yields a number.
pub open spec fn ppid_in(lines: Seq<Seq<char>>) -> Option<nat>
    decreases lines.len(),
{
    if lines.len() == 0 {
        None
    } else {
        let here = match text::after(lines[0], "PPid:"@) {
            Some(rest) => text::number(text::trim(rest), u32::MAX as nat),
            None => None,
        };
        if here is Some {
            here
        } else {
            ppid_in(lines.skip(1))
        }
    }
}

/// The parent of a process, from the contents of `/proc/<pid>/status`.
pub fn parent_of(status: &str) -> (r: Option<u32>)
    ensures
        r matches Some(p) ==> ppid_in(text::lines(status@)) == Some(p as nat),
        r is None ==> ppid_in(text::lines(status@)) is None,
{
    let lines = text::lines_of(status);
    let ghost all = text::lines(status@);
    let mut i: usize = 0;
    assert(all.skip(0) =~= all);
    while i < lines.len()
        invariant
            i <= lines.len(),
            all == text::lines(status@),
            text::strs(lines@) == all,
            ppid_in(all.skip(i as int)) == ppid_in(all),
        decreases lines.len() - i,
    {
        assert(text::strs(lines@)[i as int] == lines@[i as int]@);
        assert(all.skip(i as int)[0] == lines@[i as int]@);
        assert(all.skip(i as int).skip(1) =~= all.skip(i + 1));
        match text::strip_prefix(lines[i].as_str(), "PPid:") {
            Some(rest) => {
                let r = text::parse_u32(text::trim_str(rest.as_str()).as_str());
                if r.is_some() {
                    return r;
                }
            },
            None => {},
        }
        i += 1;
    }
    None
}

/// The name of a process, from the contents of `/proc/<pid>/comm`.
pub fn comm_of(contents: &str) -> (r: String)
    ensures
        r@ == text::trim(contents@),
{
    text::trim_str(contents)
}

// ---------------------------------------------------------------------------
// Laws
// ---------------------------------------------------------------------------

/// `p` holds a chain of parents: each is the parent of the one before it, and
/// none is its own parent.
pub open spec fn is_chain(table: Seq<(u32, u32)>, p: Seq<u32>) -> bool {
    forall|i: int|
        0 <= i < p.len() - 1 ==> {
            &&& parent_in(table, #[trigger] p[i]) == Some(p[i + 1])
            &&& p[i + 1] != p[i]
            &&& p[i + 1] != 0
        }
}

/// A chain of parents leads from one process up to another.
pub open spec fn leads_up(table: Seq<(u32, u32)>, from: u32, pid: u32, p: Seq<u32>) -> bool {
    p.len() > 0 && is_chain(table, p) && p[0] == from && p.last() == pid
}

/// Whatever a caller passes, what is not refused is one real process: above 1,
/// not Prism itself, not above Prism by any chain of parents, and not of a
/// protected name.
pub proof fn what_may_be_signalled_is_one_process(
    protected: Set<Seq<char>>,
    self_pid: u32,
    pid: u32,
    parents: Seq<(u32, u32)>,
    comm: Option<Seq<char>>,
)
    requires
        refused(protected, self_pid, pid, parents, comm) is None,
    ensures
        1 < pid <= i32::MAX,
        pid != self_pid,
        forall|p: Seq<u32>| !leads_up(parents, self_pid, pid, p),
        comm is Some ==> !protected.contains(comm->0),
{
    assert forall|p: Seq<u32>| !leads_up(parents, self_pid, pid, p) by {
        if leads_up(parents, self_pid, pid, p) {
            ancestors_are_refused(parents, p);
        }
    }
}

/// Every ancestor is refused, however far up it stands: a chain of parents of
/// any length ends at a process that is above the one it starts from.
pub proof fn ancestors_are_refused(table: Seq<(u32, u32)>, p: Seq<u32>)
    requires
        p.len() > 0,
        is_chain(table, p),
    ensures
        is_above(table, p[0], p.last()),
{
    let j = first_of(p, p.last());
    lemma_first_of(p, p.last());
    let q = p.take(j + 1);
    assert(is_chain(table, q)) by {
        assert forall|i: int| 0 <= i < q.len() - 1 implies {
            &&& parent_in(table, #[trigger] q[i]) == Some(q[i + 1])
            &&& q[i + 1] != q[i]
            &&& q[i + 1] != 0
        } by {
            assert(q[i] == p[i]);
        }
    }
    lemma_no_way_back(table, q);
    lemma_chain_fits(table, q);
    lemma_chain_climbs(table, q, table.len() + 1);
}

/// What is refused as an ancestor is one: a chain of parents leads up to it.
pub proof fn only_ancestors_are_above(table: Seq<(u32, u32)>, from: u32, pid: u32)
    requires
        is_above(table, from, pid),
    ensures
        exists|p: Seq<u32>| leads_up(table, from, pid, p),
{
    lemma_climb_is_chain(table, from, pid, table.len() + 1);
}

proof fn lemma_climb_is_chain(table: Seq<(u32, u32)>, from: u32, pid: u32, steps: nat)
    requires
        climbs_to(table, from, pid, steps),
    ensures
        exists|p: Seq<u32>| leads_up(table, from, pid, p),
    decreases steps,
{
    if from == pid {
        assert(leads_up(table, from, pid, seq![from]));
    } else {
        let up = parent_in(table, from)->0;
        lemma_climb_is_chain(table, up, pid, (steps - 1) as nat);
        let rest = choose|p: Seq<u32>| leads_up(table, up, pid, p);
        let p = seq![from] + rest;
        assert forall|i: int| 0 <= i < p.len() - 1 implies {
            &&& parent_in(table, #[trigger] p[i]) == Some(p[i + 1])
            &&& p[i + 1] != p[i]
            &&& p[i + 1] != 0
        } by {
            if i > 0 {
                assert(p[i] == rest[i - 1]);
            }
        }
        assert(leads_up(table, from, pid, p));
    }
}

/// The first place of `x` in a sequence that holds it.
spec fn first_of(p: Seq<u32>, x: u32) -> int
    decreases p.len(),
{
    if p.len() == 0 || p[0] == x {
        0
    } else {
        1 + first_of(p.skip(1), x)
    }
}

proof fn lemma_first_of(p: Seq<u32>, x: u32)
    requires
        p.contains(x),
    ensures
        0 <= first_of(p, x) < p.len(),
        p[first_of(p, x)] == x,
        forall|i: int| 0 <= i < first_of(p, x) ==> p[i] != x,
    decreases p.len(),
{
    if p[0] != x {
        let rest = p.skip(1);
        let k = choose|k: int| 0 <= k < p.len() && p[k] == x;
        assert(rest[k - 1] == x);
        lemma_first_of(rest, x);
        assert forall|i: int| 0 <= i < first_of(p, x) implies p[i] != x by {
            if i > 0 {
                assert(p[i] == rest[i - 1]);
            }
        }
    }
}

/// A chain that ends at a process for the first time comes by none twice: from
/// the same process it would go the same way again.
proof fn lemma_no_way_back(table: Seq<(u32, u32)>, q: Seq<u32>)
    requires
        q.len() > 0,
        is_chain(table, q),
        forall|i: int| 0 <= i < q.len() - 1 ==> q[i] != q.last(),
    ensures
        q.no_duplicates(),
{
    assert forall|a: int, b: int| 0 <= a < b < q.len() implies q[a] != q[b] by {
        if q[a] == q[b] {
            lemma_same_way(table, q, a, b, q.len() - 1 - b);
            assert(q[a + (q.len() - 1 - b)] == q.last());
        }
    }
}

proof fn lemma_same_way(table: Seq<(u32, u32)>, q: Seq<u32>, a: int, b: int, t: int)
    requires
        is_chain(table, q),
        0 <= a < b,
        0 <= t,
        b + t < q.len(),
        q[a] == q[b],
    ensures
        q[a + t] == q[b + t],
    decreases t,
{
    if t > 0 {
        lemma_same_way(table, q, a, b, t - 1);
        assert(parent_in(table, q[a + t - 1]) == Some(q[a + t - 1 + 1]));
        assert(parent_in(table, q[b + t - 1]) == Some(q[b + t - 1 + 1]));
    }
}

/// Every process of a chain but the last has a row of its own.
proof fn lemma_chain_fits(table: Seq<(u32, u32)>, q: Seq<u32>)
    requires
        q.len() > 0,
        is_chain(table, q),
        q.no_duplicates(),
    ensures
        q.len() <= table.len() + 1,
{
    let climbers = q.drop_last();
    let keys = table.map_values(|e: (u32, u32)| e.0);
    assert(climbers.no_duplicates());
    climbers.unique_seq_to_set();
    keys.lemma_cardinality_of_set();
    assert forall|x: u32| #[trigger] climbers.to_set().contains(x) implies keys.to_set().contains(
        x,
    ) by {
        let i = choose|i: int| 0 <= i < climbers.len() && climbers[i] == x;
        assert(q[i] == x);
        lemma_has_row(table, x);
        let k = choose|k: int| 0 <= k < table.len() && (#[trigger] table[k]).0 == x;
        assert(keys[k] == x);
    }
    assert(climbers.to_set().subset_of(keys.to_set()));
    vstd::seq_lib::seq_to_set_is_finite(keys);
    vstd::set_lib::lemma_len_subset(climbers.to_set(), keys.to_set());
}

proof fn lemma_has_row(table: Seq<(u32, u32)>, pid: u32)
    requires
        parent_in(table, pid) is Some,
    ensures
        exists|k: int| 0 <= k < table.len() && (#[trigger] table[k]).0 == pid,
    decreases table.len(),
{
    if table[0].0 == pid {
        assert(table[0].0 == pid);
    } else {
        let rest = table.skip(1);
        lemma_has_row(rest, pid);
        let k = choose|k: int| 0 <= k < rest.len() && (#[trigger] rest[k]).0 == pid;
        assert(table[k + 1].0 == pid);
    }
}

proof fn lemma_chain_climbs(table: Seq<(u32, u32)>, p: Seq<u32>, steps: nat)
    requires
        0 < p.len() <= steps,
        is_chain(table, p),
    ensures
        climbs_to(table, p[0], p.last(), steps),
    decreases p.len(),
{
    if p.len() > 1 && p[0] != p.last() {
        let rest = p.skip(1);
        assert(is_chain(table, rest)) by {
            assert forall|i: int| 0 <= i < rest.len() - 1 implies {
                &&& parent_in(table, #[trigger] rest[i]) == Some(rest[i + 1])
                &&& rest[i + 1] != rest[i]
                &&& rest[i + 1] != 0
            } by {
                assert(rest[i] == p[i + 1]);
            }
        }
        lemma_chain_climbs(table, rest, (steps - 1) as nat);
        assert(parent_in(table, p[0]) == Some(p[1]));
        assert(rest.last() == p.last());
        assert(rest[0] == p[1]);
    }
}

/// A name once protected stays protected.
pub proof fn protection_is_kept(protected: Set<Seq<char>>, added: Seq<char>, name: Seq<char>)
    requires
        protected.contains(name),
    ensures
        protected.insert(added).contains(name),
{
}

/// What may be signalled, in full: one process that is neither init nor Prism nor
/// above it, and whose name, where it is known, is not protected. What is refused
/// is refused for the first of these that fails.
pub proof fn why_a_process_is_spared(
    protected: Set<Seq<char>>,
    self_pid: u32,
    pid: u32,
    parents: Seq<(u32, u32)>,
    comm: Option<Seq<char>>,
)
    ensures
        ({
            let one = 0 < pid <= 0x7fff_ffff;
            let above = is_above(parents, self_pid, pid);
            let r = refused(protected, self_pid, pid, parents, comm);
            &&& r is None <==> one && pid != 1 && pid != self_pid && !above && !(comm matches Some(
                c,
            ) && protected.contains(c))
            &&& r == Some(RefusalView::NotASinglePid) <==> !one
            &&& r == Some(RefusalView::Init) <==> pid == 1
            &&& r == Some(RefusalView::SelfPid) <==> one && pid != 1 && pid == self_pid
            &&& r == Some(RefusalView::Ancestor) <==> one && pid != 1 && pid != self_pid && above
            &&& comm matches Some(c) ==> (one && pid != 1 && pid != self_pid && !above
                && protected.contains(c) ==> r == Some(RefusalView::Protected(c)))
        }),
{
}

/// What is protected unless it is said otherwise: what starts the rest, what lets
/// people in from afar, what shows the desktop and streams it, and Prism.
pub proof fn what_is_protected_by_default(name: Seq<char>)
    ensures
        default_protected().to_set().contains(name) <==> {
            ||| name == "systemd"@
            ||| name == "init"@
            ||| name == "sshd"@
            ||| name == "tailscaled"@
            ||| name == "tailscale"@
            ||| name == "Hyprland"@
            ||| name == "sway"@
            ||| name == "gnome-shell"@
            ||| name == "kwin_wayland"@
            ||| name == "Xorg"@
            ||| name == "sddm"@
            ||| name == "gdm"@
            ||| name == "greetd"@
            ||| name == "sunshine"@
            ||| name == "prismd"@
        },
{
    let l = default_protected();
    assert(l[0] == "systemd"@ && l[1] == "init"@ && l[2] == "sshd"@ && l[3] == "tailscaled"@ && l[4] == "tailscale"@ && l[5] == "Hyprland"@ && l[6] == "sway"@ && l[7] == "gnome-shell"@ && l[8] == "kwin_wayland"@ && l[9] == "Xorg"@ && l[10] == "sddm"@ && l[11] == "gdm"@ && l[12] == "greetd"@ && l[13] == "sunshine"@ && l[14] == "prismd"@);
    if l.contains(name) {
        let i = choose|i: int| 0 <= i < l.len() && l[i] == name;
        assert(l[i] == name);
    }
}

/// A parent is told by the first row of a process.
pub proof fn the_first_row_tells_the_parent(table: Seq<(u32, u32)>, pid: u32, i: int)
    requires
        0 <= i <= table.len(),
        forall|j: int| 0 <= j < i ==> (#[trigger] table[j]).0 != pid,
    ensures
        i < table.len() && table[i].0 == pid ==> parent_in(table, pid) == Some(table[i].1),
        i == table.len() ==> parent_in(table, pid) is None,
    decreases table.len(),
{
    if i > 0 {
        let rest = table.skip(1);
        assert(table[0].0 != pid);
        assert forall|j: int| 0 <= j < i - 1 implies (#[trigger] rest[j]).0 != pid by {
            assert(rest[j] == table[j + 1]);
        }
        the_first_row_tells_the_parent(rest, pid, i - 1);
    }
}

/// The parent of a process is the number on the first line of its status that is
/// of that key.
pub proof fn the_status_tells_the_parent(lines: Seq<Seq<char>>, i: int, n: nat)
    requires
        0 <= i < lines.len(),
        lines[i].len() >= 5,
        lines[i].take(5) == "PPid:"@,
        text::number(text::trim(lines[i].skip(5)), u32::MAX as nat) == Some(n),
        forall|j: int|
            0 <= j < i && (#[trigger] lines[j]).len() >= 5 ==> lines[j].take(5) != "PPid:"@,
    ensures
        ppid_in(lines) == Some(n),
    decreases lines.len(),
{
    reveal_strlit("PPid:");
    if i > 0 {
        let rest = lines.skip(1);
        if lines[0].len() >= 5 {
            assert(lines[0].take(5) =~= lines[0].subrange(0, 5));
        }
        assert(rest[i - 1] == lines[i]);
        assert forall|j: int| 0 <= j < i - 1 && (#[trigger] rest[j]).len() >= 5 implies rest[j].take(
            5,
        ) != "PPid:"@ by {
            assert(rest[j] == lines[j + 1]);
        }
        the_status_tells_the_parent(rest, i - 1, n);
    } else {
        assert(lines[0].take(5) =~= lines[0].subrange(0, 5));
    }
}

} // verus!
