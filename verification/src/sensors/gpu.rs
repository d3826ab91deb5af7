//! VRAM sensing, and the reason it cannot reuse the memory sensor's shape.
//!
//! Every other resource Prism governs is fungible: a free byte of RAM is a free
//! byte, whoever asks for it next. VRAM is not, and treating it as if it were
//! produces a governor that fires constantly while nothing is wrong.
//!
//! ## So the governed quantity is foreign demand, not free memory
//!
//! What actually hurts is somebody else wanting VRAM and not getting it: a game
//! starting, ComfyUI loading a checkpoint, a browser compositing video. Those
//! processes are not Prism's, cannot be asked to wait, and will either fail
//! outright or fall back to host memory and crawl.
//!
//! So the sensor splits the card in two. `ours_mib` is VRAM held by processes
//! inside a Prism cgroup — workloads the governor can actually shed.
//! `foreign_mib` is everything else. The pressure signal is the second number,
//! and the tier it warrants says how much of the first must go.
//!
//! The split is deliberately computed as *card minus ours*, not as a sum over
//! the foreign processes: scanout buffers, driver context and allocations the
//! query does not itemise are occupied either way.
//!
//! ## Attribution is by cgroup, not by name
//!
//! A process is ours if its cgroup names a `prism-` unit — the scope or service
//! the supervisor started it under. Matching on process names would be both
//! fragile and wrong: two `python3` processes, one a facet and one the
//! contractor's own notebook, are different in exactly the way that matters.

use crate::text;
use vstd::prelude::*;

verus! {

#[derive(Debug, Clone, Copy, PartialEq, Eq, Structural)]
pub struct GpuMemory {
    pub total_mib: u64,
    pub used_mib: u64,
    pub free_mib: u64,
}

impl Default for GpuMemory {
    fn default() -> (r: Self)
        ensures
            r == (GpuMemory { total_mib: 0, used_mib: 0, free_mib: 0 }),
    {
        GpuMemory { total_mib: 0, used_mib: 0, free_mib: 0 }
    }
}

#[derive(Debug, Clone)]
pub struct GpuProcess {
    pub pid: u32,
    pub used_mib: u64,
    pub name: String,
    /// The facet this process belongs to, or `None` if it is not Prism's.
    ///
    /// The id rather than a bare boolean, because "whose VRAM is this" is the
    /// question that decides whether a spill into RAM is coming: ComfyUI
    /// answers a VRAM shortage by moving weights to host memory, and llama.cpp
    /// answers it by failing. Knowing only that the VRAM is *ours* cannot tell
    /// those apart.
    pub owner: Option<String>,
}

impl GpuProcess {
    /// Whether the governor has any way to make this process let go.
    pub fn ours(&self) -> (r: bool)
        ensures
            r == (self.owner is Some),
    {
        self.owner.is_some()
    }
}

#[derive(Debug, Clone)]
pub struct GpuSnapshot {
    pub memory: GpuMemory,
    pub processes: Vec<GpuProcess>,
}

/// What the governed processes among the first `n` hold together.
pub open spec fn ours_sum(p: Seq<GpuProcess>, n: int) -> nat
    decreases n,
{
    if n <= 0 {
        0
    } else if p[n - 1].owner is Some {
        ours_sum(p, n - 1) + p[n - 1].used_mib as nat
    } else {
        ours_sum(p, n - 1)
    }
}

/// What the processes of one facet among the first `n` hold together.
pub open spec fn facet_sum(p: Seq<GpuProcess>, id: Seq<char>, n: int) -> nat
    decreases n,
{
    if n <= 0 {
        0
    } else if text::opt(p[n - 1].owner) == Some(id) {
        facet_sum(p, id, n - 1) + p[n - 1].used_mib as nat
    } else {
        facet_sum(p, id, n - 1)
    }
}

/// What is left of `a` after `b`, and never less than nothing.
pub open spec fn less(a: int, b: int) -> int {
    if a >= b {
        a - b
    } else {
        0
    }
}

proof fn lemma_ours_grows(p: Seq<GpuProcess>, i: int, n: int)
    requires
        0 <= i <= n,
    ensures
        ours_sum(p, i) <= ours_sum(p, n),
    decreases n - i,
{
    if i < n {
        lemma_ours_grows(p, i, n - 1);
    }
}

/// A facet holds no more than all facets together.
pub proof fn a_facet_is_part_of_ours(p: Seq<GpuProcess>, id: Seq<char>, n: int)
    ensures
        facet_sum(p, id, n) <= ours_sum(p, n),
    decreases n,
{
    if n > 0 {
        a_facet_is_part_of_ours(p, id, n - 1);
    }
}

impl GpuSnapshot {
    pub open spec fn ours(&self) -> nat {
        ours_sum(self.processes@, self.processes@.len() as int)
    }

    pub open spec fn foreign(&self) -> int {
        less(self.memory.used_mib as int, self.ours() as int)
    }

    pub open spec fn budget(&self, reserve: u64) -> int {
        less(less(self.memory.total_mib as int, self.foreign()), reserve as int)
    }

    pub open spec fn overdraft(&self, reserve: u64) -> int {
        less(self.ours() as int, self.budget(reserve))
    }

    /// What the governed processes hold together can be counted.
    pub open spec fn fits(&self) -> bool {
        self.ours() <= u64::MAX
    }

    /// Whether what the governed processes hold together can be counted. It
    /// always can on a card that exists.
    pub fn countable(&self) -> (r: bool)
        ensures
            r == self.fits(),
    {
        let mut sum: u64 = 0;
        let mut i: usize = 0;
        while i < self.processes.len()
            invariant
                i <= self.processes@.len(),
                sum == ours_sum(self.processes@, i as int),
            decreases self.processes@.len() - i,
        {
            proof {
                lemma_ours_grows(self.processes@, i + 1, self.processes@.len() as int);
            }
            if self.processes[i].ours() {
                if self.processes[i].used_mib > u64::MAX - sum {
                    return false;
                }
                sum = sum + self.processes[i].used_mib;
            }
            i += 1;
        }
        true
    }

    /// VRAM held by governed workloads: what can be shed.
    pub fn ours_mib(&self) -> (r: u64)
        requires
            self.fits(),
        ensures
            r == self.ours(),
    {
        let mut sum: u64 = 0;
        let mut i: usize = 0;
        while i < self.processes.len()
            invariant
                i <= self.processes@.len(),
                self.fits(),
                sum == ours_sum(self.processes@, i as int),
            decreases self.processes@.len() - i,
        {
            proof {
                lemma_ours_grows(self.processes@, i + 1, self.processes@.len() as int);
            }
            if self.processes[i].ours() {
                sum = sum + self.processes[i].used_mib;
            }
            i += 1;
        }
        sum
    }

    /// VRAM held by one facet, across every process in its cgroup.
    ///
    /// Summed rather than taken from the largest process because a workload
    /// that forks — ComfyUI's workers, a server with a sampler subprocess —
    /// holds VRAM in several places and would otherwise be undercounted at
    /// exactly the moment the total matters.
    pub fn facet_mib(&self, facet_id: &str) -> (r: u64)
        requires
            self.fits(),
        ensures
            r == facet_sum(self.processes@, facet_id@, self.processes@.len() as int),
    {
        let mut sum: u64 = 0;
        let mut i: usize = 0;
        while i < self.processes.len()
            invariant
                i <= self.processes@.len(),
                self.fits(),
                sum == facet_sum(self.processes@, facet_id@, i as int),
            decreases self.processes@.len() - i,
        {
            proof {
                lemma_ours_grows(self.processes@, i + 1, self.processes@.len() as int);
                a_facet_is_part_of_ours(self.processes@, facet_id@, i + 1);
            }
            let hers: bool = match &self.processes[i].owner {
                Some(o) => text::same(o.as_str(), facet_id),
                None => false,
            };
            if hers {
                sum = sum + self.processes[i].used_mib;
            }
            i += 1;
        }
        sum
    }

    /// VRAM held by everything else: what is driving the tier.
    ///
    /// The card's own occupancy less our share, rather than a sum over foreign
    /// processes, so that everything the driver declines to itemise still
    /// counts against us. It is occupied either way.
    pub fn foreign_mib(&self) -> (r: u64)
        requires
            self.fits(),
        ensures
            r == self.foreign(),
    {
        self.memory.used_mib.saturating_sub(self.ours_mib())
    }

    /// What a governed workload may hold without crowding anyone.
    ///
    /// Total, less what foreigners already hold, less a reserve for the
    /// foreigner that has not started yet. The reserve is the whole reason this
    /// is a *budget* and not simply "whatever is free": by the time a game has
    /// failed to allocate, shedding is too late — the allocation already
    /// errored. Prism must be holding less than it could, in advance.
    pub fn budget_mib(&self, reserve_mib: u64) -> (r: u64)
        requires
            self.fits(),
        ensures
            r == self.budget(reserve_mib),
    {
        self.memory.total_mib.saturating_sub(self.foreign_mib()).saturating_sub(reserve_mib)
    }

    /// How much a governed workload is over its budget. Zero when within it.
    ///
    /// This is the number the degradation ladder acts on: not a tier, not a
    /// percentage, but "give back this many MiB".
    pub fn overdraft_mib(&self, reserve_mib: u64) -> (r: u64)
        requires
            self.fits(),
        ensures
            r == self.overdraft(reserve_mib),
    {
        self.ours_mib().saturating_sub(self.budget_mib(reserve_mib))
    }
}

// ---------------------------------------------------------------------------
// Reading the driver's reports
// ---------------------------------------------------------------------------

/// One comma-separated field as a number.
pub open spec fn csv_number(fields: Seq<Seq<char>>, i: int) -> Option<nat> {
    if i < fields.len() {
        text::number(text::trim(fields[i]), u64::MAX as nat)
    } else {
        None
    }
}

/// The first line of a report of total, used and free memory.
pub open spec fn memory_report(report: Seq<char>) -> Option<(nat, nat, nat)> {
    let l = text::lines(report);
    if l.len() == 0 {
        None
    } else {
        let f = text::split(l[0], ',');
        match (csv_number(f, 0), csv_number(f, 1), csv_number(f, 2)) {
            (Some(t), Some(u), Some(r)) => Some((t, u, r)),
            _ => None,
        }
    }
}

/// The card's memory, from a report of `memory.total,memory.used,memory.free`
/// without units.
pub fn parse_memory(report: &str) -> (r: Option<GpuMemory>)
    ensures
        r matches Some(m) ==> memory_report(report@) == Some(
            (m.total_mib as nat, m.used_mib as nat, m.free_mib as nat),
        ),
        r is None ==> memory_report(report@) is None,
{
    let lines = text::lines_of(report);
    if lines.len() == 0 {
        return None;
    }
    assert(text::strs(lines@)[0] == lines@[0]@);
    let fields = text::split_str(lines[0].as_str(), ',');
    if fields.len() < 3 {
        return None;
    }
    assert(text::strs(fields@)[0] == fields@[0]@);
    assert(text::strs(fields@)[1] == fields@[1]@);
    assert(text::strs(fields@)[2] == fields@[2]@);
    let total = text::parse_u64(text::trim_str(fields[0].as_str()).as_str());
    let used = text::parse_u64(text::trim_str(fields[1].as_str()).as_str());
    let free = text::parse_u64(text::trim_str(fields[2].as_str()).as_str());
    match (total, used, free) {
        (Some(total_mib), Some(used_mib), Some(free_mib)) => Some(
            GpuMemory { total_mib, used_mib, free_mib },
        ),
        _ => None,
    }
}

/// One line of a report of pid, used memory and process name. The name is a
/// path and may itself contain commas, so it is all that follows the second. A
/// process that has not allocated yet reports no number, which reads as zero.
pub open spec fn process_line(line: Seq<char>) -> Option<(nat, nat, Seq<char>)> {
    match text::split_once(line, ',') {
        None => None,
        Some((pid, rest)) => {
            let (used, name) = match text::split_once(rest, ',') {
                Some((u, n)) => (u, n),
                None => (rest, seq![]),
            };
            match text::number(text::trim(pid), u32::MAX as nat) {
                None => None,
                Some(p) => Some(
                    (
                        p,
                        match text::number(text::trim(used), u64::MAX as nat) {
                            Some(n) => n,
                            None => 0,
                        },
                        text::trim(name),
                    ),
                ),
            }
        },
    }
}

/// A process from one line of the report, as yet of no known owner.
pub fn parse_process(line: &str) -> (r: Option<GpuProcess>)
    ensures
        r matches Some(p) ==> process_line(line@) == Some(
            (p.pid as nat, p.used_mib as nat, p.name@),
        ) && p.owner is None,
        r is None ==> process_line(line@) is None,
{
    let (pid_part, rest) = match text::split_first(line, ',') {
        Some(p) => p,
        None => {
            return None;
        },
    };
    let (used_part, name_part): (String, String) = match text::split_first(rest.as_str(), ',') {
        Some(p) => p,
        None => (rest, String::new()),
    };
    let pid: u32 = match text::parse_u32(text::trim_str(pid_part.as_str()).as_str()) {
        Some(n) => n,
        None => {
            return None;
        },
    };
    let used_mib: u64 = match text::parse_u64(text::trim_str(used_part.as_str()).as_str()) {
        Some(n) => n,
        None => 0,
    };
    Some(GpuProcess { pid, used_mib, name: text::trim_str(name_part.as_str()), owner: None })
}

/// What the first `n` lines of a report tell of processes, in order; a line that
/// tells of none is passed over.
pub open spec fn process_lines(lines: Seq<Seq<char>>, n: int) -> Seq<(nat, nat, Seq<char>)>
    decreases n,
{
    if n <= 0 {
        seq![]
    } else {
        match process_line(lines[n - 1]) {
            Some(p) => process_lines(lines, n - 1).push(p),
            None => process_lines(lines, n - 1),
        }
    }
}

/// What is known of processes, but for their owners.
pub open spec fn told(v: Seq<GpuProcess>) -> Seq<(nat, nat, Seq<char>)> {
    v.map_values(|p: GpuProcess| (p.pid as nat, p.used_mib as nat, p.name@))
}

/// The processes of a report, as yet of no known owner.
pub fn parse_processes(report: &str) -> (r: Vec<GpuProcess>)
    ensures
        told(r@) == process_lines(text::lines(report@), text::lines(report@).len() as int),
        forall|i: int| 0 <= i < r@.len() ==> (#[trigger] r@[i]).owner is None,
{
    let lines = text::lines_of(report);
    let ghost all = text::lines(report@);
    let mut out: Vec<GpuProcess> = Vec::new();
    let mut i: usize = 0;
    while i < lines.len()
        invariant
            i <= lines.len(),
            all == text::strs(lines@),
            told(out@) =~= process_lines(all, i as int),
            forall|k: int| 0 <= k < out@.len() ==> (#[trigger] out@[k]).owner is None,
        decreases lines.len() - i,
    {
        assert(all[i as int] == lines@[i as int]@);
        match parse_process(lines[i].as_str()) {
            Some(p) => {
                out.push(p);
            },
            None => {},
        }
        i += 1;
    }
    out
}

/// The facet that one segment of a cgroup path names. A scope is tried first:
/// it also starts as a service does.
pub open spec fn segment_owner(seg: Seq<char>) -> Option<Seq<char>> {
    let scope = match text::after(seg, "prism-facet-"@) {
        Some(rest) => text::before(rest, ".scope"@),
        None => None,
    };
    let service = match text::after(seg, "prism-"@) {
        Some(rest) => text::before(rest, ".service"@),
        None => None,
    };
    if scope is Some {
        scope
    } else {
        service
    }
}

/// The first owner among segments.
pub open spec fn first_owner(segs: Seq<Seq<char>>) -> Option<Seq<char>>
    decreases segs.len(),
{
    if segs.len() == 0 {
        None
    } else if segment_owner(segs[0]) is Some {
        segment_owner(segs[0])
    } else {
        first_owner(segs.skip(1))
    }
}

/// The first owner among lines.
pub open spec fn owner_in(lines: Seq<Seq<char>>) -> Option<Seq<char>>
    decreases lines.len(),
{
    if lines.len() == 0 {
        None
    } else if first_owner(text::split(lines[0], '/')) is Some {
        first_owner(text::split(lines[0], '/'))
    } else {
        owner_in(lines.skip(1))
    }
}

fn owner_of_segment(seg: &str) -> (r: Option<String>)
    ensures
        text::opt(r) == segment_owner(seg@),
{
    match text::strip_prefix(seg, "prism-facet-") {
        Some(rest) => match text::strip_suffix(rest.as_str(), ".scope") {
            Some(id) => {
                return Some(id);
            },
            None => {},
        },
        None => {},
    }
    match text::strip_prefix(seg, "prism-") {
        Some(rest) => text::strip_suffix(rest.as_str(), ".service"),
        None => None,
    }
}

fn owner_of_line(line: &str) -> (r: Option<String>)
    ensures
        text::opt(r) == first_owner(text::split(line@, '/')),
{
    let segs = text::split_str(line, '/');
    let ghost all = text::split(line@, '/');
    let mut i: usize = 0;
    assert(all.skip(0) =~= all);
    while i < segs.len()
        invariant
            i <= segs.len(),
            all == text::split(line@, '/'),
            text::strs(segs@) == all,
            first_owner(all.skip(i as int)) == first_owner(all),
        decreases segs.len() - i,
    {
        assert(text::strs(segs@)[i as int] == segs@[i as int]@);
        assert(all.skip(i as int)[0] == segs@[i as int]@);
        assert(all.skip(i as int).skip(1) =~= all.skip(i + 1));
        let here = owner_of_segment(segs[i].as_str());
        if here.is_some() {
            return here;
        }
        i += 1;
    }
    None
}

/// Extract a facet id from the contents of `/proc/<pid>/cgroup`.
///
/// Both shapes the supervisor uses are covered — `prism-<id>.service` and
/// `prism-facet-<id>.scope`. A process that has exited has no cgroup file and
/// reads as foreign, which is the safe direction: it makes the governor
/// slightly more cautious rather than slightly less.
pub fn facet_of_cgroup(cgroup: &str) -> (r: Option<String>)
    ensures
        text::opt(r) == owner_in(text::lines(cgroup@)),
{
    let lines = text::lines_of(cgroup);
    let ghost all = text::lines(cgroup@);
    let mut i: usize = 0;
    assert(all.skip(0) =~= all);
    while i < lines.len()
        invariant
            i <= lines.len(),
            all == text::lines(cgroup@),
            text::strs(lines@) == all,
            owner_in(all.skip(i as int)) == owner_in(all),
        decreases lines.len() - i,
    {
        assert(text::strs(lines@)[i as int] == lines@[i as int]@);
        assert(all.skip(i as int)[0] == lines@[i as int]@);
        assert(all.skip(i as int).skip(1) =~= all.skip(i + 1));
        let here = owner_of_line(lines[i].as_str());
        if here.is_some() {
            return here;
        }
        i += 1;
    }
    None
}

// ---------------------------------------------------------------------------
// Laws
// ---------------------------------------------------------------------------

/// Our own use does not raise the tier: with nothing foreign on the card, there
/// is no overdraft as long as the reserve is kept free.
pub proof fn our_own_models_are_not_pressure(s: GpuSnapshot, reserve: u64)
    requires
        s.foreign() == 0,
        s.ours() + reserve <= s.memory.total_mib,
    ensures
        s.overdraft(reserve) == 0,
{
}

/// Giving back the overdraft is enough: what is then held is within the budget.
pub proof fn the_overdraft_is_what_must_go(s: GpuSnapshot, reserve: u64)
    ensures
        s.ours() - s.overdraft(reserve) <= s.budget(reserve),
        s.overdraft(reserve) == 0 <==> s.ours() <= s.budget(reserve),
        s.overdraft(reserve) <= s.ours(),
{
}

/// What the driver does not itemise counts as foreign: the card's occupancy is
/// always accounted for in full.
pub proof fn everything_occupied_is_accounted_for(s: GpuSnapshot)
    requires
        s.ours() <= s.memory.used_mib,
    ensures
        s.ours() + s.foreign() == s.memory.used_mib,
{
}

/// A larger reserve never makes more room.
pub proof fn a_reserve_only_takes(s: GpuSnapshot, small: u64, large: u64)
    requires
        small <= large,
    ensures
        s.budget(large) <= s.budget(small),
        s.overdraft(large) >= s.overdraft(small),
{
}

/// What must be given back is what the card's occupancy and the reserve together
/// exceed the card by: nothing where they do not, and no more than is ours.
pub proof fn the_overdraft_is_what_does_not_fit(s: GpuSnapshot, reserve: u64)
    requires
        s.ours() <= s.memory.used_mib,
    ensures
        ({
            let over = s.memory.used_mib + reserve - s.memory.total_mib;
            &&& over <= 0 ==> s.overdraft(reserve) == 0
            &&& 0 <= over <= s.ours() ==> s.overdraft(reserve) == over
            &&& over >= s.ours() ==> s.overdraft(reserve) == s.ours()
        }),
{
}

proof fn lemma_sums_before(p: Seq<GpuProcess>, x: GpuProcess, id: Seq<char>, n: int)
    requires
        0 <= n <= p.len(),
    ensures
        ours_sum(p.push(x), n) == ours_sum(p, n),
        facet_sum(p.push(x), id, n) == facet_sum(p, id, n),
    decreases n,
{
    if n > 0 {
        lemma_sums_before(p, x, id, n - 1);
    }
}

/// A process more counts with all it holds where it is ours, and for its own
/// facet; one that is not ours counts for nothing, however much it holds.
pub proof fn a_process_counts_for_its_owner(p: Seq<GpuProcess>, x: GpuProcess, id: Seq<char>)
    ensures
        ({
            let n = p.len() as int;
            let q = p.push(x);
            &&& x.owner is Some ==> ours_sum(q, n + 1) == ours_sum(p, n) + x.used_mib
            &&& x.owner is None ==> ours_sum(q, n + 1) == ours_sum(p, n) && facet_sum(q, id, n + 1)
                == facet_sum(p, id, n)
            &&& x.owner matches Some(o) ==> (o@ == id ==> facet_sum(q, id, n + 1) == facet_sum(
                p,
                id,
                n,
            ) + x.used_mib) && (o@ != id ==> facet_sum(q, id, n + 1) == facet_sum(p, id, n))
            &&& ours_sum(seq![], 0) == 0 && facet_sum(seq![], id, 0) == 0
        }),
{
    lemma_sums_before(p, x, id, p.len() as int);
}

/// With nothing of ours on it, all that is used on a card is foreign, and what is
/// left of it after the reserve is the budget.
pub proof fn the_budget_is_what_others_leave(s: GpuSnapshot, reserve: u64)
    requires
        s.ours() <= s.memory.used_mib <= s.memory.total_mib,
    ensures
        s.foreign() == s.memory.used_mib - s.ours(),
        s.foreign() + reserve <= s.memory.total_mib ==> s.budget(reserve) + s.foreign() + reserve
            == s.memory.total_mib,
        s.foreign() + reserve > s.memory.total_mib ==> s.budget(reserve) == 0,
{
}

proof fn lemma_digits_hold_no(n: nat, c: char)
    requires
        !text::is_digit(c),
    ensures
        !text::dec(n).contains(c),
{
    text::lemma_dec(n);
    let d = text::dec(n);
    if d.contains(c) {
        let i = choose|i: int| 0 <= i < d.len() && d[i] == c;
        assert(text::is_digit(d[i]));
    }
}

/// A number behind a blank reads as the number.
proof fn lemma_blank_number(n: nat, max: nat)
    requires
        n <= max,
    ensures
        text::number(text::trim(seq![' '] + text::dec(n)), max) == Some(n),
        text::number(text::trim(text::dec(n)), max) == Some(n),
{
    let d = text::dec(n);
    text::lemma_dec(n);
    assert(text::is_digit(d[0]) && text::is_digit(d[d.len() - 1]));
    text::lemma_trim_id(d);
    text::lemma_number_dec(n, max);
    let y = seq![' '] + d;
    assert(y.skip(1) =~= d);
    text::lemma_lead(d);
    assert(text::lead(d) == 0);
    assert(text::lead(y) == 1 + text::lead(y.skip(1)));
    assert(y.skip(1) =~= d.skip(0));
}

proof fn lemma_first_comma(a: Seq<char>, rest: Seq<char>)
    requires
        !a.contains(','),
    ensures
        text::split_once(a + ","@ + rest, ',') == Some((a, rest)),
{
    reveal_strlit(",");
    let s = a + ","@ + rest;
    assert(s[a.len() as int] == ',');
    assert forall|j: int| 0 <= j < a.len() implies s[j] != ',' by {
        assert(s[j] == a[j]);
        assert(a.contains(a[j]));
    }
    text::lemma_pos_is(s, ',', a.len() as int);
    assert(s.take(a.len() as int) =~= a);
    assert(s.skip(a.len() as int + 1) =~= rest);
}

/// A line of a report tells of the process of its first number, what its second
/// number says that it holds, and the name that is all the rest, commas and all.
/// Where the second is no number it holds nothing yet.
pub proof fn a_line_tells_of_a_process(pid: u32, used: u64, what: Seq<char>, name: Seq<char>)
    requires
        !what.contains(','),
        text::number(text::trim(what), u64::MAX as nat) is None,
    ensures
        process_line(
            text::dec(pid as nat) + ","@ + (seq![' '] + text::dec(used as nat) + ","@ + name),
        ) == Some((pid as nat, used as nat, text::trim(name))),
        process_line(text::dec(pid as nat) + ","@ + (what + ","@ + name)) == Some(
            (pid as nat, 0nat, text::trim(name)),
        ),
{
    lemma_digits_hold_no(pid as nat, ',');
    lemma_digits_hold_no(used as nat, ',');
    let u = seq![' '] + text::dec(used as nat);
    if u.contains(',') {
        let i = choose|i: int| 0 <= i < u.len() && u[i] == ',';
        assert(text::dec(used as nat)[i - 1] == ',');
        assert(text::dec(used as nat).contains(','));
    }
    lemma_first_comma(text::dec(pid as nat), u + ","@ + name);
    lemma_first_comma(u, name);
    lemma_first_comma(text::dec(pid as nat), what + ","@ + name);
    lemma_first_comma(what, name);
    lemma_blank_number(pid as nat, u32::MAX as nat);
    lemma_blank_number(used as nat, u64::MAX as nat);
}

/// The names that the supervisor gives to what it starts lead back to the facet,
/// whichever of the two shapes they have.
pub proof fn a_unit_names_its_facet(id: Seq<char>)
    ensures
        segment_owner("prism-facet-"@ + id + ".scope"@) == Some(id),
        !text::ends("prism-"@ + id + ".service"@, ".scope"@) ==> segment_owner(
            "prism-"@ + id + ".service"@,
        ) == Some(id),
{
    lemma_between("prism-facet-"@, id, ".scope"@);
    lemma_between("prism-"@, id, ".service"@);
    let s = "prism-"@ + id + ".service"@;
    if text::starts(s, "prism-facet-"@) {
        let rest = s.skip("prism-facet-"@.len() as int);
        if text::ends(rest, ".scope"@) {
            let n = ".scope"@.len() as int;
            assert(rest.subrange(rest.len() - n, rest.len() as int) =~= s.subrange(
                s.len() - n,
                s.len() as int,
            ));
        }
    }
}

proof fn lemma_between(a: Seq<char>, id: Seq<char>, b: Seq<char>)
    ensures
        text::after(a + id + b, a) == Some(id + b),
        text::before(id + b, b) == Some(id),
{
    let s = a + id + b;
    assert(s.subrange(0, a.len() as int) =~= a);
    assert(s.skip(a.len() as int) =~= id + b);
    let t = id + b;
    assert(t.subrange(id.len() as int, t.len() as int) =~= b);
    assert(t.take(id.len() as int) =~= id);
}

/// What is in no unit of Prism's is nobody's: a segment that does not start as
/// Prism's units do, or ends neither as a scope nor as a service, names no facet.
pub proof fn what_is_not_prisms_is_foreign(seg: Seq<char>)
    requires
        !text::starts(seg, "prism-"@) || !(text::ends(seg, ".scope"@) || text::ends(
            seg,
            ".service"@,
        )),
    ensures
        segment_owner(seg) is None,
{
    reveal_strlit("prism-facet-");
    reveal_strlit("prism-");
    if text::starts(seg, "prism-facet-"@) {
        assert(seg.subrange(0, 6) =~= "prism-"@) by {
            assert(seg.subrange(0, 12) == "prism-facet-"@);
            assert(seg.subrange(0, 6) =~= seg.subrange(0, 12).subrange(0, 6));
            assert("prism-facet-"@.subrange(0, 6) =~= "prism-"@);
        }
        let rest = seg.skip(12);
        lemma_end_of_rest(seg, 12, ".scope"@);
    }
    if text::starts(seg, "prism-"@) {
        lemma_end_of_rest(seg, 6, ".service"@);
    }
}

proof fn lemma_end_of_rest(s: Seq<char>, n: int, p: Seq<char>)
    requires
        0 <= n <= s.len(),
    ensures
        text::ends(s.skip(n), p) ==> text::ends(s, p),
{
    let rest = s.skip(n);
    if text::ends(rest, p) {
        assert(rest.subrange(rest.len() - p.len(), rest.len() as int) =~= s.subrange(
            s.len() - p.len(),
            s.len() as int,
        ));
    }
}

/// A cgroup path has the owner of the first of its segments that has one.
pub proof fn the_first_unit_on_the_path_owns_it(segs: Seq<Seq<char>>, i: int)
    requires
        0 <= i < segs.len(),
        forall|j: int| 0 <= j < i ==> segment_owner(#[trigger] segs[j]) is None,
    ensures
        segment_owner(segs[i]) is Some ==> first_owner(segs) == segment_owner(segs[i]),
        i == segs.len() - 1 && segment_owner(segs[i]) is None ==> first_owner(segs) is None,
    decreases segs.len(),
{
    if i > 0 {
        let rest = segs.skip(1);
        assert(segment_owner(segs[0]) is None);
        assert forall|j: int| 0 <= j < i - 1 implies segment_owner(#[trigger] rest[j]) is None by {
            assert(rest[j] == segs[j + 1]);
        }
        assert(rest[i - 1] == segs[i]);
        the_first_unit_on_the_path_owns_it(rest, i - 1);
    } else if segs.len() == 1 {
        assert(first_owner(segs.skip(1)) is None);
    }
}

/// The first line of the report on memory tells the whole, what is used, and what
/// is free, in that order, and further lines are of other cards.
pub proof fn the_first_line_tells_the_cards_memory(
    total: u64,
    used: u64,
    free: u64,
    others: Seq<char>,
)
    ensures
        memory_report(
            (text::dec(total as nat) + ","@ + (seq![' '] + text::dec(used as nat) + ","@ + (seq![' ']
                + text::dec(free as nat)))).push('\n') + others,
        ) == Some((total as nat, used as nat, free as nat)),
        memory_report(Seq::empty()) is None,
{
    reveal_strlit(",");
    let t = text::dec(total as nat);
    let u = seq![' '] + text::dec(used as nat);
    let f = seq![' '] + text::dec(free as nat);
    let line = t + ","@ + (u + ","@ + f);
    lemma_no(total as nat);
    lemma_no(used as nat);
    lemma_no(free as nat);
    text::lemma_split_one(f, ',');
    text::lemma_split_cons(u, ',', f);
    text::lemma_split_cons(t, ',', u.push(',') + f);
    assert(line =~= t.push(',') + (u.push(',') + f));
    assert(text::split(line, ',') =~= seq![t, u, f]);
    assert(!line.contains('\n')) by {
        if line.contains('\n') {
            let i = choose|i: int| 0 <= i < line.len() && line[i] == '\n';
            if i < t.len() {
                assert(t[i] == '\n');
            } else if i > t.len() && i < t.len() + 1 + u.len() {
                assert(u[i - t.len() - 1] == '\n');
            } else if i > t.len() + 1 + u.len() {
                assert(f[i - t.len() - u.len() - 2] == '\n');
            }
        }
    }
    text::lines_end_at_their_breaks(line, others);
    text::lemma_dec(free as nat);
    assert(line.last() == text::dec(free as nat).last());
    assert(text::is_digit(text::dec(free as nat)[text::dec(free as nat).len() - 1]));
    assert(text::lines(line.push('\n') + others)[0] == line);
    lemma_blank_number(total as nat, u64::MAX as nat);
    lemma_blank_number(used as nat, u64::MAX as nat);
    lemma_blank_number(free as nat, u64::MAX as nat);
}

proof fn lemma_no(n: nat)
    ensures
        !text::dec(n).contains(','),
        !text::dec(n).contains('\n'),
        !(seq![' '] + text::dec(n)).contains(','),
        !(seq![' '] + text::dec(n)).contains('\n'),
{
    lemma_digits_hold_no(n, ',');
    lemma_digits_hold_no(n, '\n');
    let u = seq![' '] + text::dec(n);
    if u.contains(',') {
        let i = choose|i: int| 0 <= i < u.len() && u[i] == ',';
        assert(text::dec(n)[i - 1] == ',');
    }
    if u.contains('\n') {
        let i = choose|i: int| 0 <= i < u.len() && u[i] == '\n';
        assert(text::dec(n)[i - 1] == '\n');
    }
}

} // verus!
