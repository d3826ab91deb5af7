//! The sensing loop.
//!
//! Two independent detection paths run at the same cadence:
//!
//! * the **governor**, which reacts to system-wide pressure, and
//! * the **storm detector**, which reacts to process count and spawn rate.
//!
//! The storm path deliberately does not wait on the governor's tier escalation.
//! A recursion producing hundreds of megabytes every few seconds consumes
//! gigabytes before pressure registers anything, so a detector chained behind
//! pressure tiers would always arrive after the damage. Prism catches shape
//! before it catches size.
//!
//! What is sensed is handed in, and what is to be done about it is handed back.

use crate::api;
use crate::api::{Vitals, VramVitals};
use crate::config;
use crate::config::{Facet, FacetView, GovernorConfig};
use crate::events::Level;
use crate::figures;
use crate::governor;
use crate::governor::{Driver, Governor, Reading, Tier};
use crate::graceful::Deficit;
use crate::graceful_config::{Graceful, GracefulView};
use crate::sensors::disk;
use crate::sensors::disk::MountUsage;
use crate::sensors::gpu;
use crate::sensors::gpu::{GpuProcess, GpuSnapshot};
use crate::sensors::memory;
use crate::sensors::memory::{MemorySnapshot, PsiRaw, PsiTracker};
use crate::supervisor::{FacetStatus, StatusView};
use crate::text;
use crate::watchdog::storm;
use crate::watchdog::storm::{ActionView, StormAction, StormDetector, StormVerdict};
use vstd::prelude::*;

verus! {

/// How often the machine is looked at, in seconds.
pub const TICK: u64 = 1;

/// Sample the GPU every other tick.
///
/// Asking the driver costs tens of milliseconds, so that at every tick it would
/// be a standing tax of several percent of a core forever — an unreasonable
/// price on a daemon whose argument for existing is that it stays responsive
/// when nothing else does. Every two seconds is still well inside the sustain
/// window, so it changes when a shed is decided by at most one tick and never
/// whether.
pub const GPU_EVERY: u64 = 2;

/// When the next look is due and how long to sleep until then, given when it was
/// due and what time it is after a look. One that fell behind, most likely
/// because the machine is thrashing, resynchronises rather than looks again and
/// again to catch up.
pub fn pace(next: u64, now: u64) -> (r: (u64, u64))
    ensures
        next > now ==> r == (next, (next - now) as u64),
        next <= now ==> r == (now, 0u64),
{
    if next > now {
        (next, next - now)
    } else {
        (now, 0)
    }
}

/// How long a process is given to go by itself, in seconds.
pub const TERM_GRACE: u64 = 3;

// ---------------------------------------------------------------------------
// What graphics memory could cost
// ---------------------------------------------------------------------------

/// How much RAM would be demanded if each of the first `n` facets that offload
/// did so.
///
/// Only facets that declare `offloads_to_ram` count. A workload that fails an
/// allocation rather than migrating out of it creates no liability, and counting
/// its VRAM here would produce a permanent phantom debt on a machine holding a
/// resident model stack.
pub open spec fn liability(p: Seq<GpuProcess>, facets: Seq<FacetView>, n: int) -> nat
    decreases n,
{
    if n <= 0 {
        0
    } else if facets[n - 1].offloads_to_ram {
        liability(p, facets, n - 1) + gpu::facet_sum(p, facets[n - 1].id, p.len() as int)
    } else {
        liability(p, facets, n - 1)
    }
}

/// The liability where there is a GPU. Nothing sensed is different from nothing
/// owed.
pub open spec fn owed(g: Option<GpuSnapshot>, facets: Seq<FacetView>) -> Option<nat> {
    match g {
        Some(s) => Some(liability(s.processes@, facets, facets.len() as int)),
        None => None,
    }
}

/// What is held and what is owed can be counted.
pub open spec fn accounts(g: Option<GpuSnapshot>, facets: Seq<FacetView>) -> bool {
    match g {
        Some(s) => s.fits() && liability(s.processes@, facets, facets.len() as int) <= u64::MAX,
        None => true,
    }
}

proof fn lemma_liability_grows(p: Seq<GpuProcess>, facets: Seq<FacetView>, i: int, n: int)
    requires
        0 <= i <= n,
    ensures
        liability(p, facets, i) <= liability(p, facets, n),
    decreases n - i,
{
    if i < n {
        lemma_liability_grows(p, facets, i, n - 1);
    }
}

/// The liability, where it can be counted.
fn count_liability(s: &GpuSnapshot, facets: &Vec<Facet>) -> (r: Option<u64>)
    requires
        s.fits(),
    ensures
        match r {
            Some(n) => n == liability(
                s.processes@,
                config::facet_views(facets@),
                facets@.len() as int,
            ),
            None => liability(s.processes@, config::facet_views(facets@), facets@.len() as int)
                > u64::MAX,
        },
{
    let ghost all = config::facet_views(facets@);
    let mut sum: u64 = 0;
    let mut i: usize = 0;
    while i < facets.len()
        invariant
            i <= facets.len(),
            s.fits(),
            all == config::facet_views(facets@),
            sum == liability(s.processes@, all, i as int),
        decreases facets.len() - i,
    {
        assert(all[i as int] == facets@[i as int]@);
        if facets[i].offloads_to_ram {
            match sum.checked_add(s.facet_mib(facets[i].id.as_str())) {
                Some(n) => {
                    sum = n;
                },
                None => {
                    proof {
                        lemma_liability_grows(s.processes@, all, i + 1, all.len() as int);
                    }
                    return None;
                },
            }
        }
        i += 1;
    }
    Some(sum)
}

/// What is told of graphics memory.
pub open spec fn vram_of(g: Option<GpuSnapshot>, facets: Seq<FacetView>, reserve: u64) -> Option<
    VramVitals,
> {
    match g {
        Some(s) => Some(
            VramVitals {
                total_mib: s.memory.total_mib,
                ours_mib: s.ours() as u64,
                foreign_mib: s.foreign() as u64,
                budget_mib: s.budget(reserve) as u64,
                overdraft_mib: s.overdraft(reserve) as u64,
                spill_liability_mib: liability(s.processes@, facets, facets.len() as int) as u64,
            },
        ),
        None => None,
    }
}

// ---------------------------------------------------------------------------
// What is written down
// ---------------------------------------------------------------------------

/// An event to be logged.
#[derive(Debug)]
pub struct Note {
    pub level: Level,
    pub source: &'static str,
    pub message: String,
    pub detail: Option<String>,
}

pub struct NoteView {
    pub level: Level,
    pub source: Seq<char>,
    pub message: Seq<char>,
    pub detail: Option<Seq<char>>,
}

impl View for Note {
    type V = NoteView;

    open spec fn view(&self) -> NoteView {
        NoteView {
            level: self.level,
            source: self.source@,
            message: self.message@,
            detail: text::opt(self.detail),
        }
    }
}

/// Mebibytes as gibibytes, the unit left out.
pub open spec fn in_gib(mib: u64) -> Seq<char> {
    figures::one_decimal(mib as nat, 1024)
}

/// What is said of graphics memory, where anything is owed.
pub open spec fn vram_said(vram: Option<VramVitals>) -> Seq<char> {
    match vram {
        Some(v) => if v.overdraft_mib > 0 || v.spill_liability_mib > 0 {
            " · "@ + in_gib(v.overdraft_mib) + " GiB VRAM owed ("@ + in_gib(v.foreign_mib)
                + " GiB foreign) · "@ + in_gib(v.spill_liability_mib) + " GiB would spill to RAM"@
        } else {
            seq![]
        },
        None => seq![],
    }
}

/// What is written down when the tier changes.
pub open spec fn tier_note(
    tier: Tier,
    driver: Driver,
    stall_full: u64,
    honest_kb: u64,
    vram: Option<VramVitals>,
) -> NoteView {
    NoteView {
        level: match tier {
            Tier::Green => Level::Info,
            Tier::Amber => Level::Warn,
            _ => Level::Error,
        },
        source: "governor"@,
        message: "tier "@ + tier.name(),
        detail: Some(
            driver.name() + " · "@ + figures::one_decimal(stall_full as nat, 10_000_000)
                + "% stall · "@ + figures::one_decimal(honest_kb as nat, 1_048_576)
                + " GiB honest headroom"@ + vram_said(vram),
        ),
    }
}

fn note_tier(
    tier: Tier,
    driver: Driver,
    stall_full: u64,
    honest_kb: u64,
    vram: &Option<VramVitals>,
) -> (r: Note)
    ensures
        r@ == tier_note(tier, driver, stall_full, honest_kb, *vram),
{
    let level = match tier {
        Tier::Green => Level::Info,
        Tier::Amber => Level::Warn,
        _ => Level::Error,
    };
    let mut message = "tier ".to_string();
    message.append(tier.as_str());
    let mut detail = driver.as_str().to_string();
    detail.append(" · ");
    detail.append(figures::with_one_decimal(stall_full, 10_000_000).as_str());
    detail.append("% stall · ");
    detail.append(figures::with_one_decimal(honest_kb, 1_048_576).as_str());
    detail.append(" GiB honest headroom");
    let ghost head = detail@;
    match vram {
        Some(v) => {
            if v.overdraft_mib > 0 || v.spill_liability_mib > 0 {
                detail.append(" · ");
                detail.append(figures::with_one_decimal(v.overdraft_mib, 1024).as_str());
                detail.append(" GiB VRAM owed (");
                detail.append(figures::with_one_decimal(v.foreign_mib, 1024).as_str());
                detail.append(" GiB foreign) · ");
                detail.append(figures::with_one_decimal(v.spill_liability_mib, 1024).as_str());
                detail.append(" GiB would spill to RAM");
            }
        },
        None => {},
    }
    assert(detail@ =~= head + vram_said(*vram));
    Note { level, source: "governor", message, detail: Some(detail) }
}

// ---------------------------------------------------------------------------
// The monitor
// ---------------------------------------------------------------------------

/// What one look at the machine comes to.
#[derive(Debug)]
pub struct Tick {
    /// What the dashboard is told: the state that motivated any intervention,
    /// rather than its aftermath.
    pub vitals: Vitals,
    pub reading: Reading,
    /// The new tier, where it changed, and what is written down about it.
    pub change: Option<(Tier, Note)>,
}

pub struct Monitor {
    governor: Governor,
    storms: StormDetector,
    psi: PsiTracker,
    vram_reserve_mib: u64,
    /// Last GPU sample, held between the ticks that do not take one.
    gpu: Option<GpuSnapshot>,
    ticks: u64,
}

/// The full stall between two readings, nothing where it is not known.
pub open spec fn stalled(last: Option<(PsiRaw, u64)>, raw: Option<PsiRaw>, now: u64) -> u64 {
    match raw {
        Some(p) => match memory::stall_since(last, p, now) {
            Some(s) => s.full,
            None => 0,
        },
        None => 0,
    }
}

/// The filesystems that are watched: those that are configured, and else the
/// usual.
pub fn watched_paths(configured: &Vec<String>, home: Option<&str>) -> (r: Vec<String>)
    ensures
        configured@.len() > 0 ==> text::strs(r@) == text::strs(configured@),
        configured@.len() == 0 ==> text::strs(r@) == disk::usual_paths(home),
{
    if configured.len() == 0 {
        disk::default_paths(home)
    } else {
        text::copy_all(configured)
    }
}

impl Monitor {
    pub closed spec fn governor(&self) -> governor::State {
        self.governor@
    }

    pub closed spec fn thresholds(&self) -> GovernorConfig {
        self.governor.cfg()
    }

    pub closed spec fn reserve(&self) -> u64 {
        self.vram_reserve_mib
    }

    pub closed spec fn psi(&self) -> Option<(PsiRaw, u64)> {
        self.psi.last()
    }

    pub closed spec fn gpu(&self) -> Option<GpuSnapshot> {
        self.gpu
    }

    pub closed spec fn ticks(&self) -> u64 {
        self.ticks
    }

    pub closed spec fn storms(&self) -> StormDetector {
        self.storms
    }

    pub open spec fn wf(&self) -> bool {
        self.storms().wf()
    }

    /// A monitor that has seen nothing yet.
    pub fn new(cfg: GovernorConfig, storms: StormDetector) -> (r: Self)
        ensures
            r.thresholds() == cfg,
            r.reserve() == cfg.vram_reserve_mib,
            r.governor() == (governor::State {
                tier: Tier::Green,
                driver: Driver::Nothing,
                candidate: None,
            }),
            r.psi() is None,
            r.gpu() is None,
            r.ticks() == 0,
            r.storms() == storms,
    {
        let vram_reserve_mib = cfg.vram_reserve_mib;
        Monitor {
            governor: Governor::new(cfg),
            storms,
            psi: PsiTracker::new(),
            vram_reserve_mib,
            gpu: None,
            ticks: 0,
        }
    }

    /// Whether this tick takes a sample of the GPU.
    pub fn gpu_due(&self) -> (r: bool)
        ensures
            r == (self.ticks() % GPU_EVERY == 0),
    {
        self.ticks % GPU_EVERY == 0
    }

    /// A tick begins: the sample of the GPU is kept where one is due. None on a
    /// host with no driver, and deliberately not remembered as such: a driver
    /// loaded later is picked up without a restart.
    pub fn begin(&mut self, sample: Option<GpuSnapshot>)
        ensures
            final(self).gpu() == (if old(self).ticks() % GPU_EVERY == 0 {
                sample
            } else {
                old(self).gpu()
            }),
            final(self).ticks() == (if old(self).ticks() == u64::MAX {
                0
            } else {
                (old(self).ticks() + 1) as u64
            }),
            final(self).governor() == old(self).governor(),
            final(self).thresholds() == old(self).thresholds(),
            final(self).reserve() == old(self).reserve(),
            final(self).psi() == old(self).psi(),
            final(self).storms() == old(self).storms(),
    {
        if self.gpu_due() {
            self.gpu = sample;
        }
        self.ticks = self.ticks.wrapping_add(1);
    }

    /// Whether what the GPU holds and what facets owe can be counted.
    pub fn accountable(&self, facets: &Vec<Facet>) -> (r: bool)
        ensures
            r == accounts(self.gpu(), config::facet_views(facets@)),
    {
        match &self.gpu {
            Some(s) => s.countable() && count_liability(s, facets).is_some(),
            None => true,
        }
    }

    /// How much RAM would be demanded if every offload-capable facet spilled.
    pub fn spill_liability(&self, facets: &Vec<Facet>) -> (r: Option<u64>)
        requires
            accounts(self.gpu(), config::facet_views(facets@)),
        ensures
            match r {
                Some(n) => owed(self.gpu(), config::facet_views(facets@)) == Some(n as nat),
                None => owed(self.gpu(), config::facet_views(facets@)) is None,
            },
    {
        match &self.gpu {
            Some(s) => count_liability(s, facets),
            None => None,
        }
    }

    fn vram(&self, facets: &Vec<Facet>) -> (r: Option<VramVitals>)
        requires
            accounts(self.gpu(), config::facet_views(facets@)),
        ensures
            r == vram_of(self.gpu(), config::facet_views(facets@), self.reserve()),
    {
        let spill: u64 = match self.spill_liability(facets) {
            Some(n) => n,
            None => 0,
        };
        match &self.gpu {
            Some(s) => Some(
                VramVitals {
                    total_mib: s.memory.total_mib,
                    ours_mib: s.ours_mib(),
                    foreign_mib: s.foreign_mib(),
                    budget_mib: s.budget_mib(self.vram_reserve_mib),
                    overdraft_mib: s.overdraft_mib(self.vram_reserve_mib),
                    spill_liability_mib: spill,
                },
            ),
            None => None,
        }
    }

    /// One look at the machine.
    pub fn tick(
        &mut self,
        mem: &MemorySnapshot,
        raw: Option<PsiRaw>,
        disks: &Vec<MountUsage>,
        facets: &Vec<Facet>,
        now: u64,
    ) -> (r: Tick)
        requires
            accounts(old(self).gpu(), config::facet_views(facets@)),
        ensures
            final(self).thresholds() == old(self).thresholds(),
            final(self).reserve() == old(self).reserve(),
            final(self).gpu() == old(self).gpu(),
            final(self).ticks() == old(self).ticks(),
            final(self).storms() == old(self).storms(),
            final(self).psi() == (match raw {
                Some(p) => Some((p, now)),
                None => old(self).psi(),
            }),
            ({
                let views = config::facet_views(facets@);
                let vram = vram_of(old(self).gpu(), views, old(self).reserve());
                let stall = stalled(old(self).psi(), raw, now);
                &&& api::tells(r.vitals, *mem, stall, old(self).governor().tier, vram)
                &&& r.vitals.disk is None <==> disks@.len() == 0
                &&& r.vitals.disk matches Some(d) ==> exists|i: int|
                    disk::is_tightest(disks@, i) && api::tells_disk(d, #[trigger] disks@[i])
                &&& r.reading.stall_full == stall
                &&& r.reading.headroom_mib == mem.honest_headroom_kb / 1024
                &&& r.reading.disk_free_mib == (match r.vitals.disk {
                    Some(d) => Some(d.free_mib),
                    None => None,
                })
                &&& r.reading.vram_overdraft_mib == (match vram {
                    Some(v) => Some(v.overdraft_mib),
                    None => None,
                })
                &&& r.reading.spill_liability_mib == (match vram {
                    Some(v) => Some(v.spill_liability_mib),
                    None => None,
                })
                &&& (
                    final(self).governor(),
                    match r.change {
                        Some(c) => Some(c.0),
                        None => None,
                    },
                ) == governor::step(
                    old(self).thresholds(),
                    old(self).governor(),
                    r.reading,
                    now,
                )
                &&& r.change matches Some(c) ==> c.1@ == tier_note(
                    c.0,
                    final(self).governor().driver,
                    stall,
                    mem.honest_headroom_kb,
                    vram,
                )
            }),
    {
        let vram = self.vram(facets);
        let stall: u64 = match raw {
            Some(p) => match self.psi.update_at(p, now) {
                Some(s) => s.full,
                None => 0,
            },
            None => 0,
        };
        let tightest = disk::tightest(disks.as_slice());
        let vitals = Vitals::from_sample(mem, stall, self.governor.tier(), tightest, vram);
        let reading = Reading {
            stall_full: stall,
            headroom_mib: mem.honest_headroom_kb / 1024,
            disk_free_mib: match tightest {
                Some(d) => Some(d.available_mib()),
                None => None,
            },
            vram_overdraft_mib: match &vram {
                Some(v) => Some(v.overdraft_mib),
                None => None,
            },
            spill_liability_mib: match &vram {
                Some(v) => Some(v.spill_liability_mib),
                None => None,
            },
        };
        proof {
            if let Some(u) = tightest {
                let i = choose|i: int|
                    disk::is_tightest(disks@, i) && *u == #[trigger] disks@[i];
                assert(api::tells_disk(vitals.disk->0, disks@[i]));
            }
        }
        let change = match self.governor.observe_at(&reading, now) {
            Some(tier) => Some(
                (
                    tier,
                    note_tier(
                        tier,
                        self.governor.driver(),
                        stall,
                        mem.honest_headroom_kb,
                        &vram,
                    ),
                ),
            ),
            None => None,
        };
        Tick { vitals, reading, change }
    }

    /// Test every rule against one reading of the process table, so that adding
    /// rules costs matching rather than another walk of `/proc`.
    pub fn detect_storms(&mut self, table: &Vec<(u32, String)>, now: u64) -> (r: Vec<StormVerdict>)
        requires
            old(self).wf(),
        ensures
            final(self).wf(),
            final(self).governor() == old(self).governor(),
            final(self).thresholds() == old(self).thresholds(),
            final(self).reserve() == old(self).reserve(),
            final(self).gpu() == old(self).gpu(),
            final(self).ticks() == old(self).ticks(),
            final(self).psi() == old(self).psi(),
            final(self).storms().rules() == old(self).storms().rules(),
            ({
                let rules = old(self).storms().rules();
                let hits = Seq::new(
                    rules.len(),
                    |i: int|
                        storm::matching_pids(rules[i].pattern, table@),
                );
                (final(self).storms().mem(), storm::findings(r@)) == storm::sweep(
                    rules,
                    old(self).storms().mem(),
                    hits,
                    now,
                    rules.len() as int,
                )
            }),
    {
        let matches = self.storms.matching(table);
        proof {
            let rules = self.storms.rules();
            let hits = Seq::new(
                rules.len(),
                |i: int|
                    storm::matching_pids(rules[i].pattern, table@),
            );
            assert(storm::pid_views(matches@) =~= hits);
        }
        self.storms.evaluate_at(&matches, now)
    }
}

// ---------------------------------------------------------------------------
// Asking workloads to yield
// ---------------------------------------------------------------------------

/// A facet that is asked, how, and what it is told.
#[derive(Debug)]
pub struct Ask {
    pub hook: Graceful,
    pub deficit: Deficit,
}

pub struct AskView {
    pub facet: Seq<char>,
    pub hook: GracefulView,
    pub tier: Tier,
    pub vram_overdraft_mib: Option<u64>,
    pub vram_budget_mib: Option<u64>,
    pub headroom_mib: u64,
}

impl View for Ask {
    type V = AskView;

    open spec fn view(&self) -> AskView {
        AskView {
            facet: self.deficit.facet@,
            hook: self.hook@,
            tier: self.deficit.tier,
            vram_overdraft_mib: self.deficit.vram_overdraft_mib,
            vram_budget_mib: self.deficit.vram_budget_mib,
            headroom_mib: self.deficit.headroom_mib,
        }
    }
}

pub open spec fn ask_views(v: Seq<Ask>) -> Seq<AskView> {
    v.map_values(|a: Ask| a@)
}

pub open spec fn status_views(v: Seq<FacetStatus>) -> Seq<StatusView> {
    v.map_values(|s: FacetStatus| s@)
}

/// A facet can be asked while it runs, whoever started it: where Prism did not,
/// asking is the only lever there is.
pub open spec fn can_be_asked(s: StatusView) -> bool {
    s is Running || s is Foreign
}

/// What a facet is told, by its hook.
pub open spec fn asked(
    f: FacetView,
    tier: Tier,
    headroom_mib: u64,
    vram: Option<VramVitals>,
) -> AskView {
    AskView {
        facet: f.id,
        hook: f.graceful->0,
        tier,
        vram_overdraft_mib: match vram {
            Some(v) => Some(v.overdraft_mib),
            None => None,
        },
        vram_budget_mib: match vram {
            Some(v) => Some(v.budget_mib),
            None => None,
        },
        headroom_mib,
    }
}

/// Those of the first `n` facets that are asked.
pub open spec fn asks(
    facets: Seq<FacetView>,
    states: Seq<StatusView>,
    tier: Tier,
    headroom_mib: u64,
    vram: Option<VramVitals>,
    n: int,
) -> Seq<AskView>
    decreases n,
{
    if n <= 0 {
        seq![]
    } else {
        let before = asks(facets, states, tier, headroom_mib, vram, n - 1);
        if facets[n - 1].graceful is Some && can_be_asked(states[n - 1]) {
            before.push(asked(facets[n - 1], tier, headroom_mib, vram))
        } else {
            before
        }
    }
}

/// Fire every configured graceful hook for the new tier.
///
/// Every facet with a hook, not only the ones holding the contended resource,
/// and that is deliberate. Prism can see that a facet's processes hold VRAM; it
/// cannot see that a facet is *about to* allocate some, or that it has a queue
/// it would rather drain than abandon. Telling everyone the tier and letting
/// each decide is the same division as everywhere else.
///
/// A facet that is not running is skipped: a hook that always fails fills the
/// log with the facet refusing to do something it was never in a position to do.
pub fn ask_facets_to_yield(
    facets: &Vec<Facet>,
    states: &Vec<FacetStatus>,
    tier: Tier,
    headroom_mib: u64,
    vram: &Option<VramVitals>,
) -> (r: Vec<Ask>)
    requires
        states@.len() == facets@.len(),
    ensures
        ask_views(r@) == asks(
            config::facet_views(facets@),
            status_views(states@),
            tier,
            headroom_mib,
            *vram,
            facets@.len() as int,
        ),
{
    let ghost views = config::facet_views(facets@);
    let ghost st = status_views(states@);
    let mut out: Vec<Ask> = Vec::new();
    let mut i: usize = 0;
    assert(ask_views(out@) =~= asks(views, st, tier, headroom_mib, *vram, 0));
    while i < facets.len()
        invariant
            i <= facets.len(),
            states@.len() == facets@.len(),
            views == config::facet_views(facets@),
            st == status_views(states@),
            ask_views(out@) == asks(views, st, tier, headroom_mib, *vram, i as int),
        decreases facets.len() - i,
    {
        assert(views[i as int] == facets@[i as int]@);
        assert(st[i as int] == states@[i as int]@);
        let running = match &states[i] {
            FacetStatus::Running => true,
            FacetStatus::Foreign => true,
            _ => false,
        };
        let ghost before = out@;
        match &facets[i].graceful {
            Some(hook) => {
                if running {
                    let ask = Ask {
                        hook: hook.clone(),
                        deficit: Deficit {
                            facet: facets[i].id.clone(),
                            tier,
                            vram_overdraft_mib: match vram {
                                Some(v) => Some(v.overdraft_mib),
                                None => None,
                            },
                            vram_budget_mib: match vram {
                                Some(v) => Some(v.budget_mib),
                                None => None,
                            },
                            headroom_mib,
                        },
                    };
                    assert(ask@ == asked(views[i as int], tier, headroom_mib, *vram));
                    out.push(ask);
                    assert(ask_views(out@) =~= ask_views(before).push(ask@));
                }
            },
            None => {},
        }
        i += 1;
    }
    out
}

// ---------------------------------------------------------------------------
// Responding to a storm
// ---------------------------------------------------------------------------

/// What is done about a verdict.
#[derive(Debug)]
pub enum Response {
    /// The rule keeps coming back: say so, and do not act again.
    Report(Note),
    Nothing,
    Kill(Vec<u32>),
    Run(Vec<String>),
}

pub enum ResponseView {
    Report(NoteView),
    Nothing,
    Kill(Seq<u32>),
    Run(Seq<Seq<char>>),
}

impl View for Response {
    type V = ResponseView;

    open spec fn view(&self) -> ResponseView {
        match *self {
            Response::Report(n) => ResponseView::Report(n@),
            Response::Nothing => ResponseView::Nothing,
            Response::Kill(p) => ResponseView::Kill(p@),
            Response::Run(a) => ResponseView::Run(text::strs(a@)),
        }
    }
}

/// What is done about a verdict.
pub open spec fn response(v: storm::Finding) -> ResponseView {
    if v.suppressed {
        ResponseView::Report(
            NoteView {
                level: Level::Error,
                source: "storm"@,
                message: "`"@ + v.rule_id + "` recurring after repeated interventions"@,
                detail: None,
            },
        )
    } else {
        match v.action {
            ActionView::Notify => ResponseView::Nothing,
            ActionView::KillMatched => ResponseView::Kill(v.pids),
            ActionView::Command(argv) => ResponseView::Run(argv),
        }
    }
}

/// What is done about a verdict.
pub fn respond(v: &StormVerdict) -> (r: Response)
    ensures
        r@ == response(v@),
{
    if v.suppressed {
        let mut message = "`".to_string();
        message.append(v.rule_id.as_str());
        message.append("` recurring after repeated interventions");
        return Response::Report(
            Note { level: Level::Error, source: "storm", message, detail: None },
        );
    }
    match &v.action {
        StormAction::Notify => Response::Nothing,
        StormAction::KillMatched => Response::Kill(copy_pids(&v.pids)),
        StormAction::Command(argv) => Response::Run(text::copy_all(argv)),
    }
}

fn copy_pids(v: &Vec<u32>) -> (r: Vec<u32>)
    ensures
        r@ == v@,
{
    vstd::slice::slice_to_vec(v.as_slice())
}

/// What is written down once a storm is contained. An intervention is recorded
/// with the same weight as an observation, so that a later analysis can subtract
/// Prism's own hand from the timeline it is reading.
pub open spec fn containment(rule_id: Seq<char>, gone: nat, of: nat, rss_mib: u64) -> NoteView {
    NoteView {
        level: Level::Action,
        source: "storm"@,
        message: "contained `"@ + rule_id + "`"@,
        detail: Some(
            "terminated "@ + text::dec(gone) + " of "@ + text::dec(of) + " processes, "@
                + text::dec(rss_mib as nat) + " MiB reclaimed"@,
        ),
    }
}

/// What is written down once a storm is contained.
pub fn contained(v: &StormVerdict, gone: usize, rss_mib: u64) -> (r: Note)
    ensures
        r@ == containment(v.rule_id@, gone as nat, v.pids@.len(), rss_mib),
{
    let mut message = "contained `".to_string();
    message.append(v.rule_id.as_str());
    message.append("`");
    let mut detail = "terminated ".to_string();
    text::push_dec(&mut detail, gone as u64);
    detail.append(" of ");
    text::push_dec(&mut detail, v.pids.len() as u64);
    detail.append(" processes, ");
    text::push_dec(&mut detail, rss_mib);
    detail.append(" MiB reclaimed");
    Note { level: Level::Action, source: "storm", message, detail: Some(detail) }
}

// ---------------------------------------------------------------------------
// Laws
// ---------------------------------------------------------------------------

/// A rule that keeps coming back is reported and acted on no more, whatever it
/// asks for.
pub proof fn a_suppressed_verdict_only_reports(v: storm::Finding)
    ensures
        v.suppressed <==> response(v) is Report,
        response(v) is Kill ==> response(v)->Kill_0 == v.pids,
{
}

/// Where no facet offloads, nothing is owed, however much graphics memory is
/// held.
pub proof fn only_what_offloads_is_owed(p: Seq<GpuProcess>, facets: Seq<FacetView>, n: int)
    requires
        0 <= n <= facets.len(),
        forall|i: int| 0 <= i < n ==> !(#[trigger] facets[i]).offloads_to_ram,
    ensures
        liability(p, facets, n) == 0,
    decreases n,
{
    if n > 0 {
        only_what_offloads_is_owed(p, facets, n - 1);
        assert(!facets[n - 1].offloads_to_ram);
    }
}

/// Every facet that is asked has a hook, and runs.
pub proof fn only_running_facets_are_asked(
    facets: Seq<FacetView>,
    states: Seq<StatusView>,
    tier: Tier,
    headroom_mib: u64,
    vram: Option<VramVitals>,
    n: int,
    k: int,
)
    requires
        0 <= n <= facets.len(),
        0 <= k < asks(facets, states, tier, headroom_mib, vram, n).len(),
    ensures
        exists|i: int|
            0 <= i < n && (#[trigger] facets[i]).graceful is Some && can_be_asked(states[i])
                && asks(facets, states, tier, headroom_mib, vram, n)[k] == asked(
                facets[i],
                tier,
                headroom_mib,
                vram,
            ),
    decreases n,
{
    if n > 0 {
        let before = asks(facets, states, tier, headroom_mib, vram, n - 1);
        if k < before.len() {
            only_running_facets_are_asked(facets, states, tier, headroom_mib, vram, n - 1, k);
        } else {
            assert(facets[n - 1].graceful is Some);
        }
    }
}

/// A host without a GPU owes nothing and is told nothing of one: sensing that is
/// absent never manufactures pressure.
pub proof fn no_gpu_no_debt(facets: Seq<FacetView>, reserve: u64)
    ensures
        owed(None, facets) is None,
        vram_of(None, facets, reserve) is None,
        accounts(None, facets),
{
}

/// A facet that offloads owes all of the graphics memory that its processes hold;
/// one that does not owes nothing.
pub proof fn a_facet_owes_what_it_would_offload(p: Seq<GpuProcess>, facets: Seq<FacetView>, n: int)
    requires
        0 <= n < facets.len(),
    ensures
        facets[n].offloads_to_ram ==> liability(p, facets, n + 1) == liability(p, facets, n)
            + gpu::facet_sum(p, facets[n].id, p.len() as int),
        !facets[n].offloads_to_ram ==> liability(p, facets, n + 1) == liability(p, facets, n),
        liability(p, facets, 0) == 0,
{
}

/// What is told of graphics memory is what the card holds, whose it is, and what
/// is owed on it.
pub proof fn the_card_is_told_as_it_is(
    s: GpuSnapshot,
    facets: Seq<FacetView>,
    reserve: u64,
)
    requires
        accounts(Some(s), facets),
        s.ours() <= s.memory.used_mib <= s.memory.total_mib,
    ensures
        ({
            let v = vram_of(Some(s), facets, reserve)->0;
            let over = s.memory.used_mib + reserve - s.memory.total_mib;
            &&& v.total_mib == s.memory.total_mib
            &&& v.ours_mib == s.ours()
            &&& v.ours_mib + v.foreign_mib == s.memory.used_mib
            &&& over <= 0 ==> v.overdraft_mib == 0
            &&& 0 <= over <= s.ours() ==> v.overdraft_mib == over
            &&& over >= s.ours() ==> v.overdraft_mib == v.ours_mib
            &&& v.spill_liability_mib == liability(s.processes@, facets, facets.len() as int)
        }),
{
    gpu::the_overdraft_is_what_does_not_fit(s, reserve);
}

/// Every facet with a hook that runs, whoever started it, is asked, in the order
/// of the facets; it is told its own name, the tier, what is over and what the
/// budget is where there is a card, and the headroom. No other is asked.
pub proof fn every_running_facet_with_a_hook_is_asked(
    facets: Seq<FacetView>,
    states: Seq<StatusView>,
    tier: Tier,
    headroom_mib: u64,
    vram: Option<VramVitals>,
    n: int,
)
    requires
        0 <= n < facets.len(),
    ensures
        ({
            let before = asks(facets, states, tier, headroom_mib, vram, n);
            let after = asks(facets, states, tier, headroom_mib, vram, n + 1);
            let runs = states[n] is Running || states[n] is Foreign;
            &&& facets[n].graceful is None || !runs ==> after == before
            &&& facets[n].graceful is Some && runs ==> {
                &&& after.len() == before.len() + 1
                &&& after.drop_last() == before
                &&& after.last().facet == facets[n].id
                &&& Some(after.last().hook) == facets[n].graceful
                &&& after.last().tier == tier
                &&& after.last().headroom_mib == headroom_mib
                &&& vram matches Some(v) ==> after.last().vram_overdraft_mib == Some(
                    v.overdraft_mib,
                ) && after.last().vram_budget_mib == Some(v.budget_mib)
                &&& vram is None ==> after.last().vram_overdraft_mib is None
                    && after.last().vram_budget_mib is None
            }
            &&& asks(facets, states, tier, headroom_mib, vram, 0).len() == 0
        }),
{
    let before = asks(facets, states, tier, headroom_mib, vram, n);
    let after = asks(facets, states, tier, headroom_mib, vram, n + 1);
    if facets[n].graceful is Some && can_be_asked(states[n]) {
        assert(after.drop_last() =~= before);
    }
}

/// What a verdict that is not demoted comes to is what its rule asks for: nothing
/// but a word, an end to what matched, or a command.
pub proof fn a_verdict_does_what_its_rule_asks(v: storm::Finding)
    requires
        !v.suppressed,
    ensures
        v.action is Notify ==> response(v) == ResponseView::Nothing,
        v.action is KillMatched ==> response(v) == ResponseView::Kill(v.pids),
        v.action matches ActionView::Command(argv) ==> response(v) == ResponseView::Run(argv),
{
}

/// How loud a change of tier is: all clear is information, amber a warning, and
/// anything worse an error. It names the tier.
pub proof fn a_worse_tier_is_louder(
    tier: Tier,
    driver: Driver,
    stall_full: u64,
    honest_kb: u64,
    vram: Option<VramVitals>,
)
    ensures
        ({
            let n = tier_note(tier, driver, stall_full, honest_kb, vram);
            &&& tier == Tier::Green ==> n.level == Level::Info && n.message == "tier "@ + "green"@
            &&& tier == Tier::Amber ==> n.level == Level::Warn && n.message == "tier "@ + "amber"@
            &&& tier == Tier::Red ==> n.level == Level::Error && n.message == "tier "@ + "red"@
            &&& tier == Tier::Black ==> n.level == Level::Error && n.message == "tier "@ + "black"@
        }),
{
}

/// No stall is known without a reading, or with the first one; with two it is the
/// full stall between them.
pub proof fn stall_is_the_full_stall(prev: PsiRaw, then: u64, raw: PsiRaw, now: u64)
    requires
        then + 1000 <= now,
    ensures
        stalled(None, Some(raw), now) == 0,
        stalled(Some((prev, then)), None, now) == 0,
        memory::is_part(
            stalled(Some((prev, then)), Some(raw), now) as int,
            raw.full_total_us - prev.full_total_us,
            (now - then) / 1000,
        ),
{
    memory::stall_is_the_part_of_the_time_that_passed(prev, then, raw, now);
}

/// A figure in gibibytes is the same with its unit and without.
pub proof fn a_figure_is_the_same_without_its_unit(mib: u64)
    ensures
        in_gib(mib) + " GiB"@ == figures::gib_text(mib as nat),
{
}

proof fn lemma_scaled(x: nat)
    ensures
        figures::rounded(1024 * x, 1_048_576) == figures::rounded(x, 1024),
{
    assert((1024 * x) / 1_048_576 == x / 1024);
    assert((1024 * x) % 1_048_576 == 1024 * (x % 1024));
}

/// The note on a change of tier says what drove it, how much of the time was lost,
/// and how many gibibytes of headroom were left.
pub proof fn a_note_tells_the_figures(
    tier: Tier,
    driver: Driver,
    stall_full: u64,
    mib: u64,
    kb: u64,
)
    requires
        kb == 1024 * mib,
    ensures
        tier_note(tier, driver, stall_full, kb, None).source == "governor"@,
        tier_note(tier, driver, stall_full, kb, None).detail == Some(
            driver.name() + " · "@ + figures::one_decimal(stall_full as nat, 10_000_000)
                + "% stall · "@ + in_gib(mib) + " GiB honest headroom"@,
        ),
{
    lemma_scaled(mib as nat * 10);
    assert(kb as nat * 10 == 1024 * (mib as nat * 10));
    let s = driver.name() + " · "@ + figures::one_decimal(stall_full as nat, 10_000_000)
        + "% stall · "@ + in_gib(mib) + " GiB honest headroom"@;
    assert(s + Seq::<char>::empty() =~= s);
}

} // verus!
