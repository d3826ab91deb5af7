//! Tiered pressure policy.
//!
//! Tiers are driven by whichever signal is worst: memory stall, honest headroom,
//! free disk, VRAM overdraft, or what a spill to host memory would leave. All
//! are scale-free — a stall share, a headroom floor and a free-space floor mean
//! the same thing on a 16 GiB laptop as on a 128 GiB server — which is what lets
//! a profile move between machines unchanged.
//!
//! A tier must hold continuously for `sustain_secs` before it takes effect. A
//! single sampling artefact must never be sufficient to kill a workload that has
//! been running for hours.

use crate::clock;
use crate::clock::Clock;
use crate::config::GovernorConfig;
use vstd::prelude::*;

verus! {

#[derive(Debug, Clone, Copy, PartialEq, Eq, PartialOrd, Ord, Structural)]
pub enum Tier {
    Green,
    Amber,
    Red,
    Black,
}

impl Default for Tier {
    fn default() -> (r: Self)
        ensures
            r == Tier::Green,
    {
        Tier::Green
    }
}

impl Tier {
    /// How severe a tier is.
    pub open spec fn rank(self) -> int {
        match self {
            Tier::Green => 0,
            Tier::Amber => 1,
            Tier::Red => 2,
            Tier::Black => 3,
        }
    }

    pub open spec fn name(self) -> Seq<char> {
        match self {
            Tier::Green => "green"@,
            Tier::Amber => "amber"@,
            Tier::Red => "red"@,
            Tier::Black => "black"@,
        }
    }

    pub fn as_str(&self) -> (r: &'static str)
        ensures
            r@ == self.name(),
    {
        match self {
            Tier::Green => "green",
            Tier::Amber => "amber",
            Tier::Red => "red",
            Tier::Black => "black",
        }
    }

    /// How severe a tier is, as a number.
    pub fn severity(self) -> (r: u8)
        ensures
            r == self.rank(),
    {
        match self {
            Tier::Green => 0,
            Tier::Amber => 1,
            Tier::Red => 2,
            Tier::Black => 3,
        }
    }
}

/// The worse of two tiers.
pub open spec fn worse(a: Tier, b: Tier) -> Tier {
    if a.rank() >= b.rank() {
        a
    } else {
        b
    }
}

fn worse_of(a: Tier, b: Tier) -> (r: Tier)
    ensures
        r == worse(a, b),
{
    if a.severity() >= b.severity() {
        a
    } else {
        b
    }
}

/// One sample of everything the governor considers.
///
/// A struct rather than positional arguments so that adding a signal later
/// cannot silently reorder an existing call site.
#[derive(Debug, Clone, Copy)]
pub struct Reading {
    /// Share of wall time fully stalled on memory, in parts per billion.
    pub stall_full: u64,
    /// Honest headroom in MiB — see `sensors::memory`.
    pub headroom_mib: u64,
    /// Free space on the tightest watched mount, if disk is being sensed.
    ///
    /// Absolute rather than percentage: what determines whether the next write
    /// succeeds is how many bytes remain, not what fraction of a 4 TB disk that
    /// happens to be.
    pub disk_free_mib: Option<u64>,
    /// How far governed workloads are over their VRAM budget, in MiB, if a GPU
    /// is being sensed.
    ///
    /// Counts up rather than down, and that is not an inconsistency: the other
    /// three signals ask how much is left, this one asks how much is owed. See
    /// `sensors::gpu`.
    pub vram_overdraft_mib: Option<u64>,
    /// MiB of RAM that would be demanded if every offload-capable facet spilled
    /// its VRAM to host memory right now.
    ///
    /// `None` when there is no GPU, or no facet that offloads.
    pub spill_liability_mib: Option<u64>,
}

impl Default for Reading {
    fn default() -> (r: Self)
        ensures
            r.stall_full == 0,
            r.headroom_mib == 0,
            r.disk_free_mib is None,
            r.vram_overdraft_mib is None,
            r.spill_liability_mib is None,
    {
        Reading {
            stall_full: 0,
            headroom_mib: 0,
            disk_free_mib: None,
            vram_overdraft_mib: None,
            spill_liability_mib: None,
        }
    }
}

/// What stands in an option, or zero.
pub open spec fn or_zero(o: Option<u64>) -> u64 {
    match o {
        Some(n) => n,
        None => 0,
    }
}

/// Headroom as it would stand after a spill, which is never below zero.
pub open spec fn after_spill(r: Reading) -> int {
    if r.headroom_mib >= or_zero(r.spill_liability_mib) {
        r.headroom_mib - or_zero(r.spill_liability_mib)
    } else {
        0
    }
}

impl Reading {
    /// Honest headroom as it would stand after a spill.
    ///
    /// Not a prediction that one will happen — a statement of what is left if
    /// it does.
    pub fn headroom_after_spill_mib(&self) -> (r: u64)
        ensures
            r == after_spill(*self),
    {
        let owed: u64 = match self.spill_liability_mib {
            Some(n) => n,
            None => 0,
        };
        self.headroom_mib.saturating_sub(owed)
    }
}

/// Which signal drove the current tier. Reported so an intervention can say why.
#[derive(Debug, Clone, Copy, PartialEq, Eq, Structural)]
pub enum Driver {
    Stall,
    Headroom,
    Disk,
    Vram,
    Spill,
    Nothing,
}

impl Driver {
    pub open spec fn name(self) -> Seq<char> {
        match self {
            Driver::Stall => "Stall"@,
            Driver::Headroom => "Headroom"@,
            Driver::Disk => "Disk"@,
            Driver::Vram => "Vram"@,
            Driver::Spill => "Spill"@,
            Driver::Nothing => "None"@,
        }
    }

    pub fn as_str(&self) -> (r: &'static str)
        ensures
            r@ == self.name(),
    {
        match self {
            Driver::Stall => "Stall",
            Driver::Headroom => "Headroom",
            Driver::Disk => "Disk",
            Driver::Vram => "Vram",
            Driver::Spill => "Spill",
            Driver::Nothing => "None",
        }
    }
}

// ---------------------------------------------------------------------------
// What each signal warrants
// ---------------------------------------------------------------------------

/// A quantity that is bad when it is high.
pub open spec fn rising(n: int, amber: int, red: int, black: int) -> Tier {
    if n >= black {
        Tier::Black
    } else if n >= red {
        Tier::Red
    } else if n >= amber {
        Tier::Amber
    } else {
        Tier::Green
    }
}

/// A quantity that is bad when it is low.
pub open spec fn falling(n: int, amber: int, red: int, black: int) -> Tier {
    if n <= black {
        Tier::Black
    } else if n <= red {
        Tier::Red
    } else if n <= amber {
        Tier::Amber
    } else {
        Tier::Green
    }
}

pub open spec fn by_stall(c: GovernorConfig, r: Reading) -> Tier {
    rising(r.stall_full as int, c.amber_stall as int, c.red_stall as int, c.black_stall as int)
}

pub open spec fn by_headroom(c: GovernorConfig, r: Reading) -> Tier {
    falling(
        r.headroom_mib as int,
        c.amber_headroom_mib as int,
        c.red_headroom_mib as int,
        c.black_headroom_mib as int,
    )
}

/// Absent disk sensing must never manufacture pressure.
pub open spec fn by_disk(c: GovernorConfig, r: Reading) -> Tier {
    match r.disk_free_mib {
        Some(free) => falling(
            free as int,
            c.amber_disk_free_mib as int,
            c.red_disk_free_mib as int,
            c.black_disk_free_mib as int,
        ),
        None => Tier::Green,
    }
}

/// Absent GPU sensing must never manufacture pressure, same as disk.
pub open spec fn by_vram(c: GovernorConfig, r: Reading) -> Tier {
    match r.vram_overdraft_mib {
        Some(over) => rising(
            over as int,
            c.amber_vram_overdraft_mib as int,
            c.red_vram_overdraft_mib as int,
            c.black_vram_overdraft_mib as int,
        ),
        None => Tier::Green,
    }
}

/// What headroom would be if every offload-capable facet spilled.
///
/// Red and Black only, deliberately. This asks "would we survive the thing that
/// is about to happen", not "is something wrong now" — and a machine that would
/// merely be at Amber after a spill is a machine that is fine. Green unless
/// there is a liability to speak of.
pub open spec fn by_spill(c: GovernorConfig, r: Reading) -> Tier {
    if or_zero(r.spill_liability_mib) == 0 {
        Tier::Green
    } else if after_spill(r) <= c.black_headroom_mib {
        Tier::Black
    } else if after_spill(r) <= c.red_headroom_mib {
        Tier::Red
    } else {
        Tier::Green
    }
}

/// The worst that any signal warrants.
pub open spec fn warranted(c: GovernorConfig, r: Reading) -> Tier {
    worse(
        worse(worse(worse(by_stall(c, r), by_headroom(c, r)), by_disk(c, r)), by_vram(c, r)),
        by_spill(c, r),
    )
}

/// The signal that is named for it. When several agree, the most actionable is.
pub open spec fn blamed(c: GovernorConfig, r: Reading) -> Driver {
    let worst = warranted(c, r);
    if worst == Tier::Green {
        Driver::Nothing
    } else if by_spill(c, r) == worst {
        Driver::Spill
    } else if by_vram(c, r) == worst {
        Driver::Vram
    } else if by_disk(c, r) == worst {
        Driver::Disk
    } else if by_headroom(c, r) == worst {
        Driver::Headroom
    } else {
        Driver::Stall
    }
}

/// Where the governor stands.
pub struct State {
    pub tier: Tier,
    pub driver: Driver,
    /// A tier observed but not yet sustained long enough to take effect, and
    /// when it was first seen.
    pub candidate: Option<(Tier, u64)>,
}

/// One sample: the state afterwards, and the tier where it changed.
pub open spec fn step(c: GovernorConfig, s: State, r: Reading, now: u64) -> (State, Option<Tier>) {
    let want = warranted(c, r);
    let driver = blamed(c, r);
    if want == s.tier {
        (State { driver, candidate: None, ..s }, None)
    } else if s.candidate is Some && (s.candidate->0).0 == want {
        if clock::within_secs(now, (s.candidate->0).1, c.sustain_secs) {
            (s, None)
        } else {
            (State { tier: want, driver, candidate: None }, Some(want))
        }
    } else {
        (State { candidate: Some((want, now)), ..s }, None)
    }
}

// ---------------------------------------------------------------------------
// The governor
// ---------------------------------------------------------------------------

pub struct Governor {
    cfg: GovernorConfig,
    current: Tier,
    driver: Driver,
    candidate: Option<(Tier, u64)>,
    clock: Clock,
}

fn rising_tier(n: u64, amber: u64, red: u64, black: u64) -> (r: Tier)
    ensures
        r == rising(n as int, amber as int, red as int, black as int),
{
    if n >= black {
        Tier::Black
    } else if n >= red {
        Tier::Red
    } else if n >= amber {
        Tier::Amber
    } else {
        Tier::Green
    }
}

fn falling_tier(n: u64, amber: u64, red: u64, black: u64) -> (r: Tier)
    ensures
        r == falling(n as int, amber as int, red as int, black as int),
{
    if n <= black {
        Tier::Black
    } else if n <= red {
        Tier::Red
    } else if n <= amber {
        Tier::Amber
    } else {
        Tier::Green
    }
}

impl View for Governor {
    type V = State;

    closed spec fn view(&self) -> State {
        State { tier: self.current, driver: self.driver, candidate: self.candidate }
    }
}

impl Governor {
    /// The thresholds in force.
    pub closed spec fn cfg(&self) -> GovernorConfig {
        self.cfg
    }

    pub fn new(cfg: GovernorConfig) -> (g: Self)
        ensures
            g.cfg() == cfg,
            g@ == (State { tier: Tier::Green, driver: Driver::Nothing, candidate: None }),
    {
        Governor {
            cfg,
            current: Tier::Green,
            driver: Driver::Nothing,
            candidate: None,
            clock: Clock::start(),
        }
    }

    pub fn tier(&self) -> (r: Tier)
        ensures
            r == self@.tier,
    {
        self.current
    }

    /// What is currently driving the tier.
    pub fn driver(&self) -> (r: Driver)
        ensures
            r == self@.driver,
    {
        self.driver
    }

    /// The tier these readings warrant, ignoring sustain, and what drove it.
    pub fn instantaneous(&self, r: &Reading) -> (out: (Tier, Driver))
        ensures
            out.0 == warranted(self.cfg(), *r),
            out.1 == blamed(self.cfg(), *r),
    {
        let c = &self.cfg;
        let stall = rising_tier(r.stall_full, c.amber_stall, c.red_stall, c.black_stall);
        let headroom = falling_tier(
            r.headroom_mib,
            c.amber_headroom_mib,
            c.red_headroom_mib,
            c.black_headroom_mib,
        );
        let disk = match r.disk_free_mib {
            Some(free) => falling_tier(
                free,
                c.amber_disk_free_mib,
                c.red_disk_free_mib,
                c.black_disk_free_mib,
            ),
            None => Tier::Green,
        };
        let vram = match r.vram_overdraft_mib {
            Some(over) => rising_tier(
                over,
                c.amber_vram_overdraft_mib,
                c.red_vram_overdraft_mib,
                c.black_vram_overdraft_mib,
            ),
            None => Tier::Green,
        };
        let spill = self.headroom_after_spill_tier(r);
        let worst = worse_of(worse_of(worse_of(worse_of(stall, headroom), disk), vram), spill);
        // Attribute to the signal that actually reached the worst tier. Ordered
        // so that when several agree, the most actionable is named.
        let driver = if worst == Tier::Green {
            Driver::Nothing
        } else if spill == worst {
            Driver::Spill
        } else if vram == worst {
            Driver::Vram
        } else if disk == worst {
            Driver::Disk
        } else if headroom == worst {
            Driver::Headroom
        } else {
            Driver::Stall
        };
        (worst, driver)
    }

    /// The tier warranted by what headroom would be after a spill.
    fn headroom_after_spill_tier(&self, r: &Reading) -> (t: Tier)
        ensures
            t == by_spill(self.cfg(), *r),
    {
        let owed: u64 = match r.spill_liability_mib {
            Some(n) => n,
            None => 0,
        };
        if owed == 0 {
            return Tier::Green;
        }
        let after = r.headroom_after_spill_mib();
        if after <= self.cfg.black_headroom_mib {
            Tier::Black
        } else if after <= self.cfg.red_headroom_mib {
            Tier::Red
        } else {
            Tier::Green
        }
    }

    /// Feed one sample. Returns `Some(tier)` only when the effective tier
    /// changes, so callers can act on transitions rather than polling.
    pub fn observe(&mut self, reading: &Reading) -> (r: Option<Tier>)
        ensures
            final(self).cfg() == old(self).cfg(),
            exists|now: u64|
                (final(self)@, r) == #[trigger] step(old(self).cfg(), old(self)@, *reading, now),
    {
        let now = self.clock.now();
        self.observe_at(reading, now)
    }

    /// As [`Self::observe`], with the sample time supplied.
    pub fn observe_at(&mut self, reading: &Reading, now: u64) -> (r: Option<Tier>)
        ensures
            final(self).cfg() == old(self).cfg(),
            (final(self)@, r) == step(old(self).cfg(), old(self)@, *reading, now),
    {
        let (want, driver) = self.instantaneous(reading);
        if want == self.current {
            self.candidate = None;
            self.driver = driver;
            return None;
        }
        match self.candidate {
            Some((tier, then)) => {
                if tier == want {
                    if !clock::is_within_secs(now, then, self.cfg.sustain_secs) {
                        self.current = want;
                        self.driver = driver;
                        self.candidate = None;
                        return Some(want);
                    }
                } else {
                    self.candidate = Some((want, now));
                }
            },
            None => {
                self.candidate = Some((want, now));
            },
        }
        None
    }
}

// ---------------------------------------------------------------------------
// Laws
// ---------------------------------------------------------------------------

/// The tier is as bad as the worst signal and no worse than some signal.
pub proof fn worst_signal_wins(c: GovernorConfig, r: Reading)
    ensures
        warranted(c, r).rank() >= by_stall(c, r).rank(),
        warranted(c, r).rank() >= by_headroom(c, r).rank(),
        warranted(c, r).rank() >= by_disk(c, r).rank(),
        warranted(c, r).rank() >= by_vram(c, r).rank(),
        warranted(c, r).rank() >= by_spill(c, r).rank(),
        ({
            ||| warranted(c, r) == by_stall(c, r)
            ||| warranted(c, r) == by_headroom(c, r)
            ||| warranted(c, r) == by_disk(c, r)
            ||| warranted(c, r) == by_vram(c, r)
            ||| warranted(c, r) == by_spill(c, r)
        }),
{
}

/// The signal that is blamed is one that warrants the tier, and nothing is
/// blamed exactly when nothing is wrong.
pub proof fn blame_is_deserved(c: GovernorConfig, r: Reading)
    ensures
        blamed(c, r) == Driver::Nothing <==> warranted(c, r) == Tier::Green,
        blamed(c, r) == Driver::Stall ==> by_stall(c, r) == warranted(c, r),
        blamed(c, r) == Driver::Headroom ==> by_headroom(c, r) == warranted(c, r),
        blamed(c, r) == Driver::Disk ==> by_disk(c, r) == warranted(c, r),
        blamed(c, r) == Driver::Vram ==> by_vram(c, r) == warranted(c, r),
        blamed(c, r) == Driver::Spill ==> by_spill(c, r) == warranted(c, r),
{
}

/// Sensing that is absent never raises the tier: taking a signal away gives a
/// tier that is no worse.
pub proof fn absent_sensing_never_manufactures_pressure(c: GovernorConfig, r: Reading)
    ensures
        warranted(c, Reading { disk_free_mib: None, ..r }).rank() <= warranted(c, r).rank(),
        warranted(c, Reading { vram_overdraft_mib: None, ..r }).rank() <= warranted(c, r).rank(),
        warranted(c, Reading { spill_liability_mib: None, ..r }).rank() <= warranted(c, r).rank(),
        warranted(c, Reading { spill_liability_mib: Some(0), ..r }) == warranted(
            c,
            Reading { spill_liability_mib: None, ..r },
        ),
{
}

/// The tier changes only to a tier that was already seen as a candidate, at
/// least `sustain_secs` ago, and that the present reading warrants: one sample
/// alone never changes it.
pub proof fn a_change_is_sustained(c: GovernorConfig, s: State, r: Reading, now: u64)
    ensures
        step(c, s, r, now).1 matches Some(t) ==> {
            &&& t == warranted(c, r)
            &&& t != s.tier
            &&& s.candidate is Some
            &&& (s.candidate->0).0 == t
            &&& clock::since(now, (s.candidate->0).1) >= c.sustain_secs * 1_000_000_000
            &&& c.sustain_secs > 0 ==> now >= (s.candidate->0).1 + c.sustain_secs * 1_000_000_000
            &&& step(c, s, r, now).0.tier == t
        },
        step(c, s, r, now).1 is None ==> step(c, s, r, now).0.tier == s.tier,
{
}

/// A reading that warrants the present tier forgets any candidate, so a spike
/// that passes starts its clock anew.
pub proof fn recovery_restarts_the_clock(c: GovernorConfig, s: State, r: Reading, now: u64)
    requires
        warranted(c, r) == s.tier,
    ensures
        step(c, s, r, now).0.candidate is None,
        step(c, s, r, now).1 is None,
{
}

/// A candidate that gives way to another is replaced with the time of the
/// sample that replaced it.
pub proof fn a_new_target_restarts_the_clock(c: GovernorConfig, s: State, r: Reading, now: u64)
    requires
        warranted(c, r) != s.tier,
        s.candidate matches Some(p) ==> p.0 != warranted(c, r),
    ensures
        step(c, s, r, now).0.candidate == Some((warranted(c, r), now)),
        step(c, s, r, now).1 is None,
{
}

/// Pressure that lasts is acted on: two samples that warrant the same new tier,
/// the second at least `sustain_secs` after the first, change the tier.
pub proof fn sustained_pressure_escalates(
    c: GovernorConfig,
    s: State,
    first: Reading,
    then: u64,
    second: Reading,
    now: u64,
)
    requires
        s.candidate is None,
        warranted(c, first) != s.tier,
        warranted(c, second) == warranted(c, first),
        now >= then + c.sustain_secs * 1_000_000_000,
    ensures
        step(c, step(c, s, first, then).0, second, now).1 == Some(warranted(c, first)),
{
}

/// A reading and when it was taken.
pub struct Sample {
    pub reading: Reading,
    pub now: u64,
}

/// Where the governor stands after samples, one after another.
pub open spec fn after(c: GovernorConfig, s: State, h: Seq<Sample>) -> State
    decreases h.len(),
{
    if h.len() == 0 {
        s
    } else {
        step(c, after(c, s, h.drop_last()), h.last().reading, h.last().now).0
    }
}

/// The tier that one of the samples changed to, where it changed.
pub open spec fn changed(c: GovernorConfig, s: State, h: Seq<Sample>, k: int) -> Option<Tier> {
    step(c, after(c, s, h.take(k)), h[k].reading, h[k].now).1
}

/// From the sample at `from` on, every one of them warrants the tier.
pub open spec fn all_warrant(c: GovernorConfig, h: Seq<Sample>, from: int, tier: Tier) -> bool {
    forall|k: int| from <= k < h.len() ==> warranted(c, (#[trigger] h[k]).reading) == tier
}

/// A candidate dates from a sample since which every one warranted it.
proof fn lemma_candidate(c: GovernorConfig, s: State, h: Seq<Sample>)
    requires
        s.candidate is None,
    ensures
        after(c, s, h).candidate matches Some(p) ==> exists|j: int|
            0 <= j < h.len() && (#[trigger] h[j]).now == p.1 && all_warrant(c, h, j, p.0),
    decreases h.len(),
{
    if h.len() > 0 {
        let g = h.drop_last();
        let n = h.len() - 1;
        lemma_candidate(c, s, g);
        if let Some(p) = after(c, s, h).candidate {
            assert(warranted(c, h[n].reading) == p.0);
            if after(c, s, g).candidate == Some(p) {
                let j = choose|j: int|
                    0 <= j < g.len() && (#[trigger] g[j]).now == p.1 && all_warrant(c, g, j, p.0);
                assert(h[j].now == p.1);
                assert(all_warrant(c, h, j, p.0)) by {
                    assert forall|k: int| j <= k < h.len() implies warranted(
                        c,
                        (#[trigger] h[k]).reading,
                    ) == p.0 by {
                        if k < n {
                            assert(g[k] == h[k]);
                        }
                    }
                }
            } else {
                assert(h[n].now == p.1);
                assert(all_warrant(c, h, n, p.0));
            }
        }
    }
}

/// Over any samples: where the last of them changes the tier, there is one at
/// least `sustain_secs` before it such that it, the last, and every sample
/// between them warranted the new tier. One that did not would have kept the
/// tier as it was.
pub proof fn every_sample_of_the_window_agrees(c: GovernorConfig, s: State, h: Seq<Sample>)
    requires
        s.candidate is None,
        h.len() > 0,
        changed(c, s, h, h.len() - 1) is Some,
    ensures
        exists|j: int|
            {
                &&& 0 <= j < h.len() - 1
                &&& clock::since(h.last().now, (#[trigger] h[j]).now) >= c.sustain_secs
                    * 1_000_000_000
                &&& all_warrant(c, h, j, changed(c, s, h, h.len() - 1)->0)
            },
{
    let g = h.drop_last();
    let n = h.len() - 1;
    assert(h.take(n) =~= g);
    let t = changed(c, s, h, n)->0;
    lemma_candidate(c, s, g);
    let p = after(c, s, g).candidate->0;
    let j = choose|j: int|
        0 <= j < g.len() && (#[trigger] g[j]).now == p.1 && all_warrant(c, g, j, p.0);
    assert(h[j] == g[j]);
    assert(all_warrant(c, h, j, t)) by {
        assert forall|k: int| j <= k < h.len() implies warranted(c, (#[trigger] h[k]).reading)
            == t by {
            if k < n {
                assert(g[k] == h[k]);
            }
        }
    }
}

/// When each tier is warranted, in the terms of the thresholds. A machine is
/// black where it stalls at least the black share of the time, where headroom or
/// sensed free disk is down to the black floor, where sensed overdraft has come
/// up to the black mark, or where paying a spill that is owed would leave no more
/// headroom than the black floor. It is red where it is not black and one of the
/// red thresholds is met in the same way, and amber where it is neither and an
/// amber one is; a spill makes nothing amber. Otherwise it is green.
pub proof fn thresholds_decide(c: GovernorConfig, r: Reading)
    ensures
        ({
            let black = {
                ||| r.stall_full >= c.black_stall
                ||| r.headroom_mib <= c.black_headroom_mib
                ||| r.disk_free_mib matches Some(f) && f <= c.black_disk_free_mib
                ||| r.vram_overdraft_mib matches Some(o) && o >= c.black_vram_overdraft_mib
                ||| r.spill_liability_mib matches Some(n) && n > 0 && r.headroom_mib <= n
                    + c.black_headroom_mib
            };
            let red = {
                ||| r.stall_full >= c.red_stall
                ||| r.headroom_mib <= c.red_headroom_mib
                ||| r.disk_free_mib matches Some(f) && f <= c.red_disk_free_mib
                ||| r.vram_overdraft_mib matches Some(o) && o >= c.red_vram_overdraft_mib
                ||| r.spill_liability_mib matches Some(n) && n > 0 && r.headroom_mib <= n
                    + c.red_headroom_mib
            };
            let amber = {
                ||| r.stall_full >= c.amber_stall
                ||| r.headroom_mib <= c.amber_headroom_mib
                ||| r.disk_free_mib matches Some(f) && f <= c.amber_disk_free_mib
                ||| r.vram_overdraft_mib matches Some(o) && o >= c.amber_vram_overdraft_mib
            };
            &&& warranted(c, r) == Tier::Black <==> black
            &&& warranted(c, r) == Tier::Red <==> !black && red
            &&& warranted(c, r) == Tier::Amber <==> !black && !red && amber
            &&& warranted(c, r) == Tier::Green <==> !black && !red && !amber
        }),
{
}

/// What is named for a tier meets a threshold of that tier itself, and everything
/// that comes before it in the order spill, video memory, disk, headroom, stall
/// does not.
pub proof fn the_most_actionable_is_named(c: GovernorConfig, r: Reading)
    ensures
        ({
            let t = warranted(c, r);
            let low = |n: int, amber: u64, red: u64, black: u64|
                (t == Tier::Black && n <= black) || (t == Tier::Red && n <= red) || (t
                    == Tier::Amber && n <= amber);
            let high = |n: int, amber: u64, red: u64, black: u64|
                (t == Tier::Black && n >= black) || (t == Tier::Red && n >= red) || (t
                    == Tier::Amber && n >= amber);
            let spill = r.spill_liability_mib matches Some(n) && n > 0 && t != Tier::Amber && low(
                r.headroom_mib - n,
                0,
                c.red_headroom_mib,
                c.black_headroom_mib,
            );
            let vram = r.vram_overdraft_mib matches Some(o) && high(
                o as int,
                c.amber_vram_overdraft_mib,
                c.red_vram_overdraft_mib,
                c.black_vram_overdraft_mib,
            );
            let disk = r.disk_free_mib matches Some(f) && low(
                f as int,
                c.amber_disk_free_mib,
                c.red_disk_free_mib,
                c.black_disk_free_mib,
            );
            let headroom = low(
                r.headroom_mib as int,
                c.amber_headroom_mib,
                c.red_headroom_mib,
                c.black_headroom_mib,
            );
            let stall = high(r.stall_full as int, c.amber_stall, c.red_stall, c.black_stall);
            &&& blamed(c, r) == Driver::Nothing <==> t == Tier::Green
            &&& blamed(c, r) == Driver::Spill <==> spill
            &&& blamed(c, r) == Driver::Vram <==> !spill && vram
            &&& blamed(c, r) == Driver::Disk <==> !spill && !vram && disk
            &&& blamed(c, r) == Driver::Headroom <==> !spill && !vram && !disk && headroom
            &&& blamed(c, r) == Driver::Stall <==> !spill && !vram && !disk && !headroom && stall
        }),
{
}

/// How tiers compare: each signal that gets worse leaves the machine at least as
/// badly off. More stall, less headroom, less free disk, more overdraft or a
/// larger spill never make a black machine anything else, and never make a red
/// one amber or green, nor an amber one green.
pub proof fn worse_signals_never_help(c: GovernorConfig, a: Reading, b: Reading)
    requires
        a.stall_full <= b.stall_full,
        a.headroom_mib >= b.headroom_mib,
        a.disk_free_mib matches Some(f) ==> b.disk_free_mib is Some && b.disk_free_mib->0 <= f,
        a.vram_overdraft_mib matches Some(o) ==> b.vram_overdraft_mib is Some
            && b.vram_overdraft_mib->0 >= o,
        a.spill_liability_mib matches Some(n) ==> b.spill_liability_mib is Some
            && b.spill_liability_mib->0 >= n,
    ensures
        warranted(c, a) == Tier::Black ==> warranted(c, b) == Tier::Black,
        warranted(c, a) == Tier::Red ==> warranted(c, b) == Tier::Red || warranted(c, b)
            == Tier::Black,
        warranted(c, a) == Tier::Amber ==> warranted(c, b) != Tier::Green,
{
    thresholds_decide(c, a);
    thresholds_decide(c, b);
}

/// The driver that is told is the one blamed by the last sample that agreed with
/// the tier; a sample that does not agree, and does not change the tier, leaves
/// it alone.
pub proof fn the_driver_goes_with_the_tier(c: GovernorConfig, s: State, r: Reading, now: u64)
    ensures
        ({
            let next = step(c, s, r, now).0;
            &&& next.tier == warranted(c, r) ==> next.driver == blamed(c, r)
            &&& next.tier != warranted(c, r) ==> next.driver == s.driver && next.tier == s.tier
        }),
{
}

/// Over any samples that all warrant one other tier, the first of them at least
/// `sustain_secs` before the last, that tier is in force after the last.
pub proof fn a_tier_that_holds_takes_effect(
    c: GovernorConfig,
    s: State,
    h: Seq<Sample>,
    tier: Tier,
)
    requires
        s.candidate is None,
        h.len() > 1,
        s.tier != tier,
        all_warrant(c, h, 0, tier),
        h[0].now + c.sustain_secs * 1_000_000_000 <= h.last().now,
    ensures
        after(c, s, h).tier == tier,
{
    let g = h.drop_last();
    lemma_pending(c, s, g, tier);
    assert(h[h.len() - 1] == h.last());
    assert(warranted(c, h[h.len() - 1].reading) == tier);
}

/// While samples agree on another tier, either it has come into force, or it is
/// pending since the first of them.
proof fn lemma_pending(c: GovernorConfig, s: State, h: Seq<Sample>, tier: Tier)
    requires
        s.candidate is None,
        h.len() > 0,
        s.tier != tier,
        all_warrant(c, h, 0, tier),
    ensures
        after(c, s, h).tier == tier || after(c, s, h).candidate == Some((tier, h[0].now)),
    decreases h.len(),
{
    let g = h.drop_last();
    assert(warranted(c, h[h.len() - 1].reading) == tier);
    if g.len() > 0 {
        assert(all_warrant(c, g, 0, tier)) by {
            assert forall|k: int| 0 <= k < g.len() implies warranted(c, (#[trigger] g[k]).reading)
                == tier by {
                assert(warranted(c, h[k].reading) == tier);
            }
        }
        lemma_pending(c, s, g, tier);
        assert(g[0] == h[0]);
    } else {
        assert(after(c, s, g) == s);
        assert(h.last() == h[0]);
    }
}

} // verus!
