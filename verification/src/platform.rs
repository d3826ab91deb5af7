//! The platform boundary.
//!
//! Prism is Linux-only today, and honestly so: its resilience story rests on
//! kernel interfaces that have no direct equivalent elsewhere.
//!
//! | Prism relies on | Purpose | Elsewhere |
//! |---|---|---|
//! | cgroups v2 | containment, live limits, atomic whole-tree kill | Windows Job Objects — similar idea, different semantics |
//! | PSI (`/proc/pressure/memory`) | stall as a *share of time*, not a counter | no equivalent; only coarse counters |
//! | zram `mm_stat` | the honest-headroom correction | no equivalent |
//! | `forkpty` | real terminals | ConPTY |
//! | systemd user scopes | supervision without root | Windows Services |
//!
//! The traits below are the seams, and deliberately narrow: a wider abstraction
//! would be guesswork about an implementation nobody has written.
//!
//! What a second platform would *not* get for free is stated plainly: **honest
//! headroom has no Windows equivalent**, because it corrects for compressed swap
//! held in RAM.

use crate::config::{Facet, FacetLimits};
use crate::sensors::memory;
use crate::sensors::memory::{MemorySnapshot, PsiRaw, PsiTracker};
use crate::supervisor;
use crate::supervisor::{FacetStatus, Supervisor};
use crate::text;
use vstd::prelude::*;

verus! {

/// Starting, stopping and constraining a workload.
///
/// Each operation says what is to be run, written or read; what the host
/// answers is handed back to be understood.
pub trait ProcessSupervisor {
    fn start(&self, facet: &Facet) -> Vec<String>;

    /// Ask politely, allowing the workload to shut itself down.
    fn stop(&self, id: &str) -> Vec<String>;

    /// Terminate the whole tree at once.
    ///
    /// Atomicity is the requirement, not speed: a shell that launched a
    /// workload that forked workers must die in one operation, with no pid
    /// races and nothing orphaned.
    fn kill(&self, answer: &str) -> Option<String>;

    /// Change limits on a *running* workload, without restarting it.
    fn set_limits(&self, id: &str, limits: &FacetLimits) -> Option<Vec<String>>;

    fn status(&self, answer: Option<&str>) -> FacetStatus;

    /// Current charge in kB.
    fn memory_current_kb(&self, raw: &str) -> Option<u64>;

    fn memory_swap_kb(&self, raw: &str) -> Option<u64>;
}

impl ProcessSupervisor for Supervisor {
    fn start(&self, facet: &Facet) -> (r: Vec<String>)
        ensures
            text::strs(r@) == supervisor::launch(facet@),
    {
        Supervisor::start(self, facet)
    }

    fn stop(&self, id: &str) -> (r: Vec<String>)
        ensures
            text::strs(r@) == supervisor::stop_words(id@),
    {
        Supervisor::stop(self, id)
    }

    fn kill(&self, answer: &str) -> (r: Option<String>)
        ensures
            text::opt(r) == (match supervisor::cgroup_dir(answer@) {
                Some(dir) => Some(text::under(dir, "cgroup.kill"@)),
                None => None,
            }),
    {
        Supervisor::kill(self, answer)
    }

    fn set_limits(&self, id: &str, limits: &FacetLimits) -> (r: Option<Vec<String>>)
        ensures
            r is None <==> supervisor::properties(limits@).len() == 0,
            r matches Some(v) ==> text::strs(v@) == supervisor::limit_words(id@, limits@),
    {
        Supervisor::set_limits(self, id, limits)
    }

    fn status(&self, answer: Option<&str>) -> (r: FacetStatus)
        ensures
            r@ == supervisor::status_text(
                match answer {
                    Some(a) => Some(a@),
                    None => None,
                },
            ),
    {
        Supervisor::status(self, answer)
    }

    fn memory_current_kb(&self, raw: &str) -> (r: Option<u64>)
        ensures
            supervisor::charge(r) == supervisor::kilobytes(raw@),
    {
        Supervisor::memory_current_kb(self, raw)
    }

    fn memory_swap_kb(&self, raw: &str) -> (r: Option<u64>)
        ensures
            supervisor::charge(r) == supervisor::kilobytes(raw@),
    {
        Supervisor::memory_swap_kb(self, raw)
    }
}

/// Whether the machine is actually struggling.
///
/// The distinction that matters: PSI reports *stall as a share of wall time*,
/// which is a measure of harm. Free-memory counters report a level, which is
/// not — a machine can be nearly out of memory and perfectly happy, or have
/// gigabytes free and be thrashing.
pub trait PressureSensor {
    /// Share of wall time fully stalled on memory, in parts per billion.
    fn stall_full(&mut self, raw: Option<PsiRaw>) -> u64;

    /// Memory genuinely available, corrected for anything that only appears to
    /// be free.
    fn honest_headroom_kb(&self, memory: Option<&MemorySnapshot>) -> u64;
}

/// PSI plus the honest-headroom correction.
pub struct LinuxPressure {
    psi: PsiTracker,
}

/// The full stall between two readings, nothing where it is not known.
pub open spec fn full_stall(last: Option<(PsiRaw, u64)>, raw: PsiRaw, now: u64) -> u64 {
    match memory::stall_since(last, raw, now) {
        Some(s) => s.full,
        None => 0,
    }
}

impl LinuxPressure {
    pub closed spec fn last(&self) -> Option<(PsiRaw, u64)> {
        self.psi.last()
    }

    pub fn new() -> (r: Self)
        ensures
            r.last() is None,
    {
        LinuxPressure { psi: PsiTracker::new() }
    }
}

impl PressureSensor for LinuxPressure {
    fn stall_full(&mut self, raw: Option<PsiRaw>) -> (r: u64)
        ensures
            r <= 1_000_000_000,
            match raw {
                Some(p) => exists|now: u64|
                    final(self).last() == Some((p, now)) && r == #[trigger] full_stall(
                        old(self).last(),
                        p,
                        now,
                    ),
                None => r == 0 && final(self).last() == old(self).last(),
            },
    {
        match raw {
            Some(p) => {
                let ghost before = self.psi.last();
                let stall = self.psi.update(p);
                proof {
                    let now = choose|now: u64|
                        self.psi.last() == Some((p, now)) && stall == #[trigger] memory::stall_since(
                            before,
                            p,
                            now,
                        );
                    assert(full_stall(before, p, now) == (match stall {
                        Some(s) => s.full,
                        None => 0,
                    }));
                    if let Some((prev, then)) = before {
                        memory::stall_is_a_share(prev, then, p, now);
                    }
                }
                match stall {
                    Some(s) => s.full,
                    None => 0,
                }
            },
            None => 0,
        }
    }

    fn honest_headroom_kb(&self, memory: Option<&MemorySnapshot>) -> (r: u64)
        ensures
            r == (match memory {
                Some(m) => m.honest_headroom_kb,
                None => 0,
            }),
    {
        match memory {
            Some(m) => m.honest_headroom_kb,
            None => 0,
        }
    }
}

/// What this platform can actually do, for the UI and for diagnostics.
///
/// Reported rather than assumed so that a host degrades visibly instead of
/// silently pretending to contain workloads it cannot.
#[derive(Debug, Clone, Copy)]
pub struct Capabilities {
    pub name: &'static str,
    /// Whole-tree containment with live, adjustable limits.
    pub cgroups: bool,
    /// Stall-based pressure rather than a free-memory level.
    pub psi: bool,
    /// The honest-headroom correction for compressed swap.
    pub compressed_swap_accounting: bool,
    pub pty: bool,
    /// Supervision without root.
    pub user_services: bool,
}

/// What the host can do, from whether its control groups, its memory pressure,
/// its compressed swap and a user's runtime directory are there.
pub fn capabilities(cgroups: bool, psi: bool, zram: bool, runtime_dir: bool) -> (r: Capabilities)
    ensures
        r.name@ == "linux"@,
        r.cgroups == cgroups,
        r.psi == psi,
        r.compressed_swap_accounting == zram,
        r.pty,
        r.user_services == runtime_dir,
{
    Capabilities {
        name: "linux",
        cgroups,
        psi,
        compressed_swap_accounting: zram,
        pty: true,
        user_services: runtime_dir,
    }
}

/// What a sensor tells of stall is the full stall between two readings, and
/// nothing of the first.
pub proof fn a_sensor_tells_the_full_stall(prev: PsiRaw, then: u64, raw: PsiRaw, now: u64)
    requires
        then + 1000 <= now,
    ensures
        full_stall(None, raw, now) == 0,
        memory::is_part(
            full_stall(Some((prev, then)), raw, now) as int,
            raw.full_total_us - prev.full_total_us,
            (now - then) / 1000,
        ),
{
    memory::stall_is_the_part_of_the_time_that_passed(prev, then, raw, now);
}

} // verus!
