//! Memory sensing, including the honest-headroom correction.
//!
//! On a zram-backed system the kernel's own accounting is misleading: `SwapFree`
//! counts capacity that, when used, consumes the very resource it claims to
//! provide. Swapping out `X` bytes frees `X` but costs `X/ratio` to store the
//! compressed copy, so the true net gain is `X * (1 - 1/ratio)`.
//!
//! Sizing zram at 1.5x RAM therefore advertises headroom that cannot exist, and
//! because free swap remains the OOM killer never fires — the machine thrashes
//! indefinitely instead of shedding a process. Every threshold in Prism is
//! expressed against the corrected figure rather than against `free`.

use crate::clock;
use crate::clock::Clock;
use crate::text;
use vstd::prelude::*;

verus! {

/// How far data was compressed: `orig` bytes into `compr`.
#[derive(Debug, Clone, Copy, PartialEq, Eq, Structural)]
pub struct Ratio {
    pub orig: u64,
    pub compr: u64,
}

/// Assumed compression ratio before any real data has been observed.
///
/// Deliberately pessimistic: zstd on anonymous pages typically achieves ~2.5-3x,
/// so 2.0 under-credits available headroom. Erring low means Prism intervenes
/// slightly early rather than slightly late.
pub open spec fn assumed_ratio() -> Ratio {
    Ratio { orig: 2, compr: 1 }
}

#[derive(Debug, Clone, Copy)]
pub struct MemorySnapshot {
    pub total_kb: u64,
    pub available_kb: u64,
    pub free_kb: u64,
    pub swap_total_kb: u64,
    pub swap_free_kb: u64,
    /// RAM currently spent storing compressed swap pages.
    pub zram_cost_kb: u64,
    /// Observed compression ratio across all zram devices, if any hold data.
    pub compression_ratio: Option<Ratio>,
    /// `available_kb` plus the *net* headroom remaining swap can actually yield.
    pub honest_headroom_kb: u64,
}

impl Default for MemorySnapshot {
    fn default() -> (r: Self)
        ensures
            r == (MemorySnapshot {
                total_kb: 0,
                available_kb: 0,
                free_kb: 0,
                swap_total_kb: 0,
                swap_free_kb: 0,
                zram_cost_kb: 0,
                compression_ratio: None,
                honest_headroom_kb: 0,
            }),
    {
        MemorySnapshot {
            total_kb: 0,
            available_kb: 0,
            free_kb: 0,
            swap_total_kb: 0,
            swap_free_kb: 0,
            zram_cost_kb: 0,
            compression_ratio: None,
            honest_headroom_kb: 0,
        }
    }
}

pub open spec fn capped(n: int) -> int {
    if n > u64::MAX {
        u64::MAX as int
    } else {
        n
    }
}

/// What is left of `a` after `b`, and never less than nothing.
pub open spec fn less(a: int, b: int) -> int {
    if a >= b {
        a - b
    } else {
        0
    }
}

impl MemorySnapshot {
    /// How much of what the kernel advertises as free is illusory.
    ///
    /// This is the number that explains an unrecoverable hang after the fact.
    pub fn phantom_headroom_kb(&self) -> (r: u64)
        ensures
            r == less(
                capped(self.available_kb + self.swap_free_kb),
                self.honest_headroom_kb as int,
            ),
    {
        let naive: u64 = self.available_kb.saturating_add(self.swap_free_kb);
        naive.saturating_sub(self.honest_headroom_kb)
    }
}

// ---------------------------------------------------------------------------
// Reading the kernel's tables
// ---------------------------------------------------------------------------

/// The number in a `Key:   123 kB` line, where the line is of that key.
pub open spec fn line_field(line: Seq<char>, key: Seq<char>) -> Option<nat> {
    match text::after(line, key) {
        None => None,
        Some(rest) => if text::words(rest).len() > 0 {
            text::number(text::words(rest)[0], u64::MAX as nat)
        } else {
            None
        },
    }
}

/// The first line of the table that yields a number for the key.
pub open spec fn field_in(lines: Seq<Seq<char>>, key: Seq<char>) -> Option<nat>
    decreases lines.len(),
{
    if lines.len() == 0 {
        None
    } else if line_field(lines[0], key) is Some {
        line_field(lines[0], key)
    } else {
        field_in(lines.skip(1), key)
    }
}

pub open spec fn field_of(table: Seq<char>, key: Seq<char>) -> Option<nat> {
    field_in(text::lines(table), key)
}

/// The number that a line of the form `Key:   123 kB` holds for the key.
fn field_of_line(line: &str, key: &str) -> (r: Option<u64>)
    ensures
        r matches Some(n) ==> line_field(line@, key@) == Some(n as nat),
        r is None ==> line_field(line@, key@) is None,
{
    match text::strip_prefix(line, key) {
        None => None,
        Some(rest) => {
            let w = text::words_of(rest.as_str());
            if w.len() == 0 {
                return None;
            }
            assert(text::strs(w@)[0] == w@[0]@);
            text::parse_u64(w[0].as_str())
        },
    }
}

/// A field of a `/proc` table, in the kernel's kilobytes.
pub fn field(table: &str, key: &str) -> (r: Option<u64>)
    ensures
        r matches Some(n) ==> field_of(table@, key@) == Some(n as nat),
        r is None ==> field_of(table@, key@) is None,
{
    let lines = text::lines_of(table);
    let ghost all = text::lines(table@);
    let mut i: usize = 0;
    assert(all.skip(0) =~= all);
    while i < lines.len()
        invariant
            i <= lines.len(),
            all == text::lines(table@),
            text::strs(lines@) == all,
            field_in(all.skip(i as int), key@) == field_of(table@, key@),
        decreases lines.len() - i,
    {
        assert(text::strs(lines@)[i as int] == lines@[i as int]@);
        assert(all.skip(i as int)[0] == lines@[i as int]@);
        assert(all.skip(i as int).skip(1) =~= all.skip(i + 1));
        match field_of_line(lines[i].as_str(), key) {
            Some(n) => {
                return Some(n);
            },
            None => {},
        }
        i += 1;
    }
    None
}

/// One row of `/proc/swaps`.
#[derive(Debug, Clone, Copy)]
pub struct SwapDevice {
    pub is_zram: bool,
    pub free_kb: u64,
}

/// What a row says: name, type, size and used; rows without them say nothing.
pub open spec fn swap_row(line: Seq<char>) -> Option<SwapDevice> {
    let w = text::words(line);
    if w.len() < 4 {
        None
    } else {
        match (text::number(w[2], u64::MAX as nat), text::number(w[3], u64::MAX as nat)) {
            (Some(size), Some(used)) => Some(
                SwapDevice {
                    is_zram: text::starts(w[0], "/dev/zram"@),
                    free_kb: less(size as int, used as int) as u64,
                },
            ),
            _ => None,
        }
    }
}

/// The devices of the first `n` lines.
pub open spec fn swap_rows(lines: Seq<Seq<char>>, n: int) -> Seq<SwapDevice>
    decreases n,
{
    if n <= 0 {
        seq![]
    } else {
        match swap_row(lines[n - 1]) {
            Some(d) => swap_rows(lines, n - 1).push(d),
            None => swap_rows(lines, n - 1),
        }
    }
}

/// The devices of a table; its first line is a heading.
pub open spec fn swap_table(table: Seq<char>) -> Seq<SwapDevice> {
    let l = text::lines(table);
    if l.len() == 0 {
        seq![]
    } else {
        swap_rows(l.skip(1), l.len() - 1)
    }
}

fn swap_device(line: &str) -> (r: Option<SwapDevice>)
    ensures
        r == swap_row(line@),
{
    let w = text::words_of(line);
    if w.len() < 4 {
        return None;
    }
    assert(text::strs(w@)[0] == w@[0]@);
    assert(text::strs(w@)[2] == w@[2]@);
    assert(text::strs(w@)[3] == w@[3]@);
    match (text::parse_u64(w[2].as_str()), text::parse_u64(w[3].as_str())) {
        (Some(size), Some(used)) => Some(
            SwapDevice {
                is_zram: text::starts_with(w[0].as_str(), "/dev/zram"),
                free_kb: size.saturating_sub(used),
            },
        ),
        _ => None,
    }
}

/// The devices of `/proc/swaps`.
pub fn swap_devices(table: &str) -> (r: Vec<SwapDevice>)
    ensures
        r@ == swap_table(table@),
{
    let lines = text::lines_of(table);
    let ghost all = text::lines(table@);
    let mut out: Vec<SwapDevice> = Vec::new();
    if lines.len() == 0 {
        return out;
    }
    let ghost rows = all.skip(1);
    let mut i: usize = 1;
    while i < lines.len()
        invariant
            1 <= i <= lines.len(),
            text::strs(lines@) == all,
            rows == all.skip(1),
            out@ == swap_rows(rows, i - 1),
        decreases lines.len() - i,
    {
        assert(text::strs(lines@)[i as int] == lines@[i as int]@);
        assert(rows[i - 1] == lines@[i as int]@);
        match swap_device(lines[i].as_str()) {
            Some(d) => {
                out.push(d);
            },
            None => {},
        }
        i += 1;
    }
    out
}

// ---------------------------------------------------------------------------
// Compressed swap
// ---------------------------------------------------------------------------

/// What all zram devices hold together.
#[derive(Debug, Clone, Copy)]
pub struct ZramTotals {
    pub orig_bytes: u64,
    pub compr_bytes: u64,
    pub mem_used_kb: u64,
}

/// A nearly-empty device yields a ratio dominated by allocator overhead rather
/// than real compressibility, so this much data is required.
pub const MIN_SAMPLE_BYTES: u64 = 16_777_216;

/// The ratio that the totals show, given a meaningful sample.
pub open spec fn observed(z: ZramTotals) -> Option<Ratio> {
    if z.compr_bytes == 0 || z.orig_bytes < MIN_SAMPLE_BYTES {
        None
    } else {
        Some(Ratio { orig: z.orig_bytes, compr: z.compr_bytes })
    }
}

impl ZramTotals {
    pub fn ratio(&self) -> (r: Option<Ratio>)
        ensures
            r == observed(*self),
    {
        if self.compr_bytes == 0 || self.orig_bytes < MIN_SAMPLE_BYTES {
            return None;
        }
        Some(Ratio { orig: self.orig_bytes, compr: self.compr_bytes })
    }
}

/// The numbers among the words of a text, in order.
pub open spec fn numbers(words: Seq<Seq<char>>, n: int) -> Seq<nat>
    decreases n,
{
    if n <= 0 {
        seq![]
    } else {
        match text::number(words[n - 1], u64::MAX as nat) {
            Some(x) => numbers(words, n - 1).push(x),
            None => numbers(words, n - 1),
        }
    }
}

pub open spec fn numbers_in(s: Seq<char>) -> Seq<nat> {
    numbers(text::words(s), text::words(s).len() as int)
}

/// One device's `mm_stat`: uncompressed bytes, compressed bytes, and kilobytes
/// of memory used. A line with fewer than three numbers counts for nothing.
pub open spec fn stat_of(stat: Seq<char>) -> (nat, nat, nat) {
    let v = numbers_in(stat);
    if v.len() >= 3 {
        (v[0], v[1], v[2] / 1024)
    } else {
        (0, 0, 0)
    }
}

/// The sums over the first `n` devices.
pub open spec fn stat_sums(stats: Seq<Seq<char>>, n: int) -> (nat, nat, nat)
    decreases n,
{
    if n <= 0 {
        (0, 0, 0)
    } else {
        let p = stat_sums(stats, n - 1);
        let s = stat_of(stats[n - 1]);
        (p.0 + s.0, p.1 + s.1, p.2 + s.2)
    }
}

pub open spec fn fits(s: (nat, nat, nat)) -> bool {
    s.0 <= u64::MAX && s.1 <= u64::MAX && s.2 <= u64::MAX
}

proof fn lemma_sums_grow(stats: Seq<Seq<char>>, i: int, n: int)
    requires
        0 <= i <= n,
    ensures
        stat_sums(stats, i).0 <= stat_sums(stats, n).0,
        stat_sums(stats, i).1 <= stat_sums(stats, n).1,
        stat_sums(stats, i).2 <= stat_sums(stats, n).2,
    decreases n - i,
{
    if i < n {
        lemma_sums_grow(stats, i, n - 1);
    }
}

/// The numbers among the words of a text.
fn parse_numbers(s: &str) -> (r: Vec<u64>)
    ensures
        r@.len() == numbers_in(s@).len(),
        forall|i: int| 0 <= i < r@.len() ==> #[trigger] r@[i] == numbers_in(s@)[i],
{
    let w = text::words_of(s);
    let ghost all = text::words(s@);
    let mut out: Vec<u64> = Vec::new();
    let mut i: usize = 0;
    while i < w.len()
        invariant
            i <= w.len(),
            text::strs(w@) == all,
            out@.len() == numbers(all, i as int).len(),
            forall|k: int| 0 <= k < out@.len() ==> #[trigger] out@[k] == numbers(all, i as int)[k],
        decreases w.len() - i,
    {
        assert(text::strs(w@)[i as int] == w@[i as int]@);
        match text::parse_u64(w[i].as_str()) {
            Some(n) => {
                out.push(n);
            },
            None => {},
        }
        i += 1;
    }
    out
}

/// Whether a block device is a zram device, by its name.
pub fn is_zram_name(name: &str) -> (r: bool)
    ensures
        r == text::starts(name@, "zram"@),
{
    text::starts_with(name, "zram")
}

/// Aggregate `mm_stat` across every zram device present; `None` where the sums
/// are beyond what a `u64` holds.
///
/// Fields are: orig_data_size compr_data_size mem_used_total mem_limit
/// mem_used_max same_pages pages_compacted huge_pages — all in bytes.
pub fn zram_totals(stats: &Vec<String>) -> (r: Option<ZramTotals>)
    ensures
        r is Some <==> fits(stat_sums(text::strs(stats@), stats@.len() as int)),
        r matches Some(z) ==> (z.orig_bytes as nat, z.compr_bytes as nat, z.mem_used_kb as nat)
            == stat_sums(text::strs(stats@), stats@.len() as int),
{
    let ghost all = text::strs(stats@);
    let mut orig: u64 = 0;
    let mut compr: u64 = 0;
    let mut used: u64 = 0;
    let mut i: usize = 0;
    while i < stats.len()
        invariant
            i <= stats.len(),
            all == text::strs(stats@),
            (orig as nat, compr as nat, used as nat) == stat_sums(all, i as int),
        decreases stats.len() - i,
    {
        assert(all[i as int] == stats@[i as int]@);
        proof {
            lemma_sums_grow(all, i + 1, stats@.len() as int);
        }
        let v = parse_numbers(stats[i].as_str());
        if v.len() >= 3 {
            if v[0] > u64::MAX - orig || v[1] > u64::MAX - compr || v[2] / 1024 > u64::MAX - used {
                return None;
            }
            orig = orig + v[0];
            compr = compr + v[1];
            used = used + v[2] / 1024;
        }
        i += 1;
    }
    Some(ZramTotals { orig_bytes: orig, compr_bytes: compr, mem_used_kb: used })
}

// ---------------------------------------------------------------------------
// Honest headroom
// ---------------------------------------------------------------------------

/// What so much free zram yields: `free * (1 - 1/ratio)`, rounded down, and
/// nothing where data does not compress.
pub open spec fn zram_yield(free: nat, r: Ratio) -> nat {
    free * (less(r.orig as int, r.compr as int) as nat) / (r.orig as nat)
}

/// Free kilobytes on the zram devices, or on the others, among the first `n`.
pub open spec fn free_on(devices: Seq<SwapDevice>, zram: bool, n: int) -> nat
    decreases n,
{
    if n <= 0 {
        0
    } else if devices[n - 1].is_zram == zram {
        free_on(devices, zram, n - 1) + devices[n - 1].free_kb as nat
    } else {
        free_on(devices, zram, n - 1)
    }
}

/// `MemAvailable` plus what the free swap can deliver: disk swap in full, zram
/// by what compression gains. Free swap that no device accounts for is taken
/// for zram, which is the cautious reading.
pub open spec fn honest(available: nat, swap_free: nat, devices: Seq<SwapDevice>, r: Ratio) -> nat {
    let disk = free_on(devices, false, devices.len() as int);
    let zram = free_on(devices, true, devices.len() as int);
    available + disk + zram_yield(
        zram + (less(swap_free as int, (disk + zram) as int) as nat),
        r,
    )
}

pub open spec fn ratio_or_assumed(o: Option<Ratio>) -> Ratio {
    match o {
        Some(r) => r,
        None => assumed_ratio(),
    }
}

/// The snapshot that the kernel's tables show, honest headroom included.
pub open spec fn shows(
    m: MemorySnapshot,
    meminfo: Seq<char>,
    swaps: Seq<char>,
    z: ZramTotals,
) -> bool {
    &&& m.total_kb == or_zero(field_of(meminfo, "MemTotal:"@))
    &&& m.available_kb == or_zero(field_of(meminfo, "MemAvailable:"@))
    &&& m.free_kb == or_zero(field_of(meminfo, "MemFree:"@))
    &&& m.swap_total_kb == or_zero(field_of(meminfo, "SwapTotal:"@))
    &&& m.swap_free_kb == or_zero(field_of(meminfo, "SwapFree:"@))
    &&& m.zram_cost_kb == z.mem_used_kb
    &&& m.compression_ratio == observed(z)
    &&& m.honest_headroom_kb == headroom(meminfo, swaps, z)
}

pub open spec fn or_zero(o: Option<nat>) -> nat {
    match o {
        Some(n) => n,
        None => 0,
    }
}

pub open spec fn headroom(meminfo: Seq<char>, swaps: Seq<char>, z: ZramTotals) -> nat {
    honest(
        or_zero(field_of(meminfo, "MemAvailable:"@)),
        or_zero(field_of(meminfo, "SwapFree:"@)),
        swap_table(swaps),
        ratio_or_assumed(observed(z)),
    )
}

/// Everything that the devices have free.
pub open spec fn classified(devices: Seq<SwapDevice>) -> nat {
    free_on(devices, false, devices.len() as int) + free_on(devices, true, devices.len() as int)
}

proof fn lemma_free_grows(devices: Seq<SwapDevice>, zram: bool, i: int, n: int)
    requires
        0 <= i <= n,
    ensures
        free_on(devices, zram, i) <= free_on(devices, zram, n),
    decreases n - i,
{
    if i < n {
        lemma_free_grows(devices, zram, i, n - 1);
    }
}

/// Free kilobytes on disk swap and on zram; `None` where they do not fit.
fn free_totals(devices: &Vec<SwapDevice>) -> (r: Option<(u64, u64)>)
    ensures
        r is Some <==> classified(devices@) <= u64::MAX,
        r matches Some(p) ==> {
            &&& p.0 == free_on(devices@, false, devices@.len() as int)
            &&& p.1 == free_on(devices@, true, devices@.len() as int)
        },
{
    let mut disk: u64 = 0;
    let mut zram: u64 = 0;
    let mut i: usize = 0;
    while i < devices.len()
        invariant
            i <= devices.len(),
            disk == free_on(devices@, false, i as int),
            zram == free_on(devices@, true, i as int),
            disk + zram <= u64::MAX,
        decreases devices.len() - i,
    {
        let d = devices[i];
        proof {
            lemma_free_grows(devices@, false, i + 1, devices@.len() as int);
            lemma_free_grows(devices@, true, i + 1, devices@.len() as int);
        }
        if d.free_kb > u64::MAX - (disk + zram) {
            return None;
        }
        if d.is_zram {
            zram = zram + d.free_kb;
        } else {
            disk = disk + d.free_kb;
        }
        i += 1;
    }
    Some((disk, zram))
}

/// What so much free zram yields.
fn yielded(free: u64, r: Ratio) -> (k: u64)
    requires
        r.orig > 0,
    ensures
        k == zram_yield(free as nat, r),
        k <= free,
{
    let gain: u64 = r.orig.saturating_sub(r.compr);
    assert(free * gain <= u64::MAX * u64::MAX) by (nonlinear_arith)
        requires
            free <= u64::MAX,
            gain <= u64::MAX,
    ;
    let k: u128 = free as u128 * gain as u128 / r.orig as u128;
    assert(k <= free) by (nonlinear_arith)
        requires
            k == (free * gain) / r.orig as int,
            gain <= r.orig,
            r.orig > 0,
            free >= 0,
    ;
    k as u64
}

/// A snapshot from `/proc/meminfo`, `/proc/swaps` (empty where it cannot be
/// read) and the zram totals; `None` where a sum is beyond what a `u64` holds.
pub fn sample(meminfo: &str, swaps: &str, zram: ZramTotals) -> (r: Option<MemorySnapshot>)
    ensures
        r is Some <==> classified(swap_table(swaps@)) <= u64::MAX && headroom(
            meminfo@,
            swaps@,
            zram,
        ) <= u64::MAX,
        r matches Some(m) ==> shows(m, meminfo@, swaps@, zram),
{
    let total: u64 = field(meminfo, "MemTotal:").unwrap_or(0);
    let available: u64 = field(meminfo, "MemAvailable:").unwrap_or(0);
    let free: u64 = field(meminfo, "MemFree:").unwrap_or(0);
    let swap_total: u64 = field(meminfo, "SwapTotal:").unwrap_or(0);
    let swap_free: u64 = field(meminfo, "SwapFree:").unwrap_or(0);
    let observed_ratio = zram.ratio();
    let ratio: Ratio = match observed_ratio {
        Some(r) => r,
        None => Ratio { orig: 2, compr: 1 },
    };
    let devices = swap_devices(swaps);
    let (disk, on_zram): (u64, u64) = match free_totals(&devices) {
        Some(p) => p,
        None => {
            return None;
        },
    };
    // Credit each swap device with only the headroom it can genuinely deliver.
    let unclassified: u64 = swap_free.saturating_sub(disk + on_zram);
    let gained: u64 = yielded(on_zram + unclassified, ratio);
    let sum: u128 = available as u128 + disk as u128 + gained as u128;
    if sum > u64::MAX as u128 {
        return None;
    }
    Some(
        MemorySnapshot {
            total_kb: total,
            available_kb: available,
            free_kb: free,
            swap_total_kb: swap_total,
            swap_free_kb: swap_free,
            zram_cost_kb: zram.mem_used_kb,
            compression_ratio: observed_ratio,
            honest_headroom_kb: sum as u64,
        },
    )
}

// ---------------------------------------------------------------------------
// Pressure Stall Information
// ---------------------------------------------------------------------------

/// Raw PSI counters, in microseconds of stall since boot.
#[derive(Debug, Clone, Copy)]
pub struct PsiRaw {
    pub some_total_us: u64,
    pub full_total_us: u64,
}

impl Default for PsiRaw {
    fn default() -> (r: Self)
        ensures
            r == (PsiRaw { some_total_us: 0, full_total_us: 0 }),
    {
        PsiRaw { some_total_us: 0, full_total_us: 0 }
    }
}

/// Stall as a share of wall time over the sampling interval, in parts per
/// billion: at most a billion.
#[derive(Debug, Clone, Copy)]
pub struct PsiStall {
    pub some: u64,
    pub full: u64,
}

impl Default for PsiStall {
    fn default() -> (r: Self)
        ensures
            r == (PsiStall { some: 0, full: 0 }),
    {
        PsiStall { some: 0, full: 0 }
    }
}

/// The number of the first word of the form `total=123`.
pub open spec fn total_in(words: Seq<Seq<char>>) -> Option<nat>
    decreases words.len(),
{
    if words.len() == 0 {
        None
    } else {
        let here = match text::after(words[0], "total="@) {
            Some(d) => text::number(d, u64::MAX as nat),
            None => None,
        };
        if here is Some {
            here
        } else {
            total_in(words.skip(1))
        }
    }
}

/// One line read into the counters.
pub open spec fn psi_line(raw: PsiRaw, line: Seq<char>) -> PsiRaw {
    match total_in(text::words(line)) {
        None => raw,
        Some(total) => if text::starts(line, "some"@) {
            PsiRaw { some_total_us: total as u64, ..raw }
        } else if text::starts(line, "full"@) {
            PsiRaw { full_total_us: total as u64, ..raw }
        } else {
            raw
        },
    }
}

/// The counters after the first `n` lines.
pub open spec fn psi_lines(lines: Seq<Seq<char>>, n: int) -> PsiRaw
    decreases n,
{
    if n <= 0 {
        PsiRaw { some_total_us: 0, full_total_us: 0 }
    } else {
        psi_line(psi_lines(lines, n - 1), lines[n - 1])
    }
}

pub open spec fn psi_of(contents: Seq<char>) -> PsiRaw {
    psi_lines(text::lines(contents), text::lines(contents).len() as int)
}

fn total_of(line: &str) -> (r: Option<u64>)
    ensures
        r matches Some(n) ==> total_in(text::words(line@)) == Some(n as nat),
        r is None ==> total_in(text::words(line@)) is None,
{
    let w = text::words_of(line);
    let ghost all = text::words(line@);
    let mut i: usize = 0;
    assert(all.skip(0) =~= all);
    while i < w.len()
        invariant
            i <= w.len(),
            all == text::words(line@),
            text::strs(w@) == all,
            total_in(all.skip(i as int)) == total_in(all),
        decreases w.len() - i,
    {
        assert(text::strs(w@)[i as int] == w@[i as int]@);
        assert(all.skip(i as int)[0] == w@[i as int]@);
        assert(all.skip(i as int).skip(1) =~= all.skip(i + 1));
        match text::strip_prefix(w[i].as_str(), "total=") {
            Some(d) => match text::parse_u64(d.as_str()) {
                Some(n) => {
                    return Some(n);
                },
                None => {},
            },
            None => {},
        }
        i += 1;
    }
    None
}

/// The counters in the contents of a PSI file.
pub fn read_psi(contents: &str) -> (r: PsiRaw)
    ensures
        r == psi_of(contents@),
{
    let lines = text::lines_of(contents);
    let ghost all = text::lines(contents@);
    let mut raw = PsiRaw { some_total_us: 0, full_total_us: 0 };
    let mut i: usize = 0;
    while i < lines.len()
        invariant
            i <= lines.len(),
            text::strs(lines@) == all,
            raw == psi_lines(all, i as int),
        decreases lines.len() - i,
    {
        assert(text::strs(lines@)[i as int] == lines@[i as int]@);
        match total_of(lines[i].as_str()) {
            Some(total) => {
                if text::starts_with(lines[i].as_str(), "some") {
                    raw.some_total_us = total;
                } else if text::starts_with(lines[i].as_str(), "full") {
                    raw.full_total_us = total;
                }
            },
            None => {},
        }
        i += 1;
    }
    raw
}

/// What `/proc/pressure/memory` says, where it could be read.
pub fn sample_psi(contents: Option<&str>) -> (r: Option<PsiRaw>)
    ensures
        r == (match contents {
            Some(c) => Some(psi_of(c@)),
            None => None,
        }),
{
    match contents {
        Some(c) => Some(read_psi(c)),
        None => None,
    }
}

/// Derives instantaneous stall from successive `total=` counters.
///
/// The kernel's own `avg10` is deliberately not used: it lags by ~10s, and the
/// failure this guards against compounds exponentially. A detector keyed on
/// `avg10` reliably notices a spiral only once it is unrecoverable.
pub struct PsiTracker {
    last: Option<(PsiRaw, u64)>,
    clock: Clock,
}

/// The part of a billion that `now - then` microseconds of stall are of the
/// microseconds that passed, and at most all of it.
pub open spec fn stalled(now: u64, then: u64, elapsed_us: int) -> int {
    let d = less(now as int, then as int);
    if d >= elapsed_us {
        1_000_000_000
    } else {
        d * 1_000_000_000 / elapsed_us
    }
}

/// The stall between two readings, where a whole microsecond passed.
pub open spec fn stall_between(prev: PsiRaw, then: u64, raw: PsiRaw, now: u64) -> Option<PsiStall> {
    let elapsed_us = clock::since(now, then) / 1000;
    if elapsed_us <= 0 {
        None
    } else {
        Some(
            PsiStall {
                some: stalled(raw.some_total_us, prev.some_total_us, elapsed_us) as u64,
                full: stalled(raw.full_total_us, prev.full_total_us, elapsed_us) as u64,
            },
        )
    }
}

/// The stall since the last reading, where there was one.
pub open spec fn stall_since(last: Option<(PsiRaw, u64)>, raw: PsiRaw, now: u64) -> Option<
    PsiStall,
> {
    match last {
        Some((prev, then)) => stall_between(prev, then, raw, now),
        None => None,
    }
}

fn stall_share(now: u64, then: u64, elapsed_us: u64) -> (r: u64)
    requires
        elapsed_us > 0,
    ensures
        r == stalled(now, then, elapsed_us as int),
        r <= 1_000_000_000,
{
    let d: u64 = now.saturating_sub(then);
    if d >= elapsed_us {
        return 1_000_000_000;
    }
    let q: u128 = d as u128 * 1_000_000_000 / elapsed_us as u128;
    assert(q <= 1_000_000_000) by (nonlinear_arith)
        requires
            q == (d * 1_000_000_000) / elapsed_us as int,
            d <= elapsed_us,
            elapsed_us > 0,
    ;
    q as u64
}

impl PsiTracker {
    /// The last reading and when it was taken.
    pub closed spec fn last(&self) -> Option<(PsiRaw, u64)> {
        self.last
    }

    pub fn new() -> (r: Self)
        ensures
            r.last() is None,
    {
        PsiTracker { last: None, clock: Clock::start() }
    }

    /// Returns `None` on the first sample, when no delta exists yet.
    pub fn update(&mut self, raw: PsiRaw) -> (r: Option<PsiStall>)
        ensures
            exists|now: u64|
                final(self).last() == Some((raw, now)) && r == #[trigger] stall_since(
                    old(self).last(),
                    raw,
                    now,
                ),
    {
        let now = self.clock.now();
        self.update_at(raw, now)
    }

    /// As [`Self::update`], with the sample time supplied.
    ///
    /// Two samples taken within the same microsecond yield no measurable
    /// interval and are reported as `None` rather than dividing by zero.
    pub fn update_at(&mut self, raw: PsiRaw, now: u64) -> (r: Option<PsiStall>)
        ensures
            final(self).last() == Some((raw, now)),
            r == stall_since(old(self).last(), raw, now),
    {
        let stall = match self.last {
            Some((prev, then)) => {
                let elapsed: u64 = if now >= then {
                    (now - then) / 1000
                } else {
                    0
                };
                if elapsed == 0 {
                    None
                } else {
                    Some(
                        PsiStall {
                            some: stall_share(raw.some_total_us, prev.some_total_us, elapsed),
                            full: stall_share(raw.full_total_us, prev.full_total_us, elapsed),
                        },
                    )
                }
            },
            None => None,
        };
        self.last = Some((raw, now));
        stall
    }
}

// ---------------------------------------------------------------------------
// Laws
// ---------------------------------------------------------------------------

/// Honest headroom never exceeds what the kernel advertises, `MemAvailable`
/// plus free swap, where the devices account for no more swap than the kernel
/// reports free; and it is never below `MemAvailable`.
pub proof fn honest_never_exceeds_naive(
    available: nat,
    swap_free: nat,
    devices: Seq<SwapDevice>,
    r: Ratio,
)
    requires
        r.orig > 0,
        classified(devices) <= swap_free,
    ensures
        available <= honest(available, swap_free, devices, r) <= available + swap_free,
{
    let disk = free_on(devices, false, devices.len() as int);
    let zram = free_on(devices, true, devices.len() as int);
    lemma_yield(zram + (swap_free - disk - zram) as nat, r);
}

/// Where all swap is compressed, headroom is what the formula says:
/// `available + swap_free * (1 - 1/ratio)`.
pub proof fn all_zram_follows_the_formula(available: nat, swap_free: nat, r: Ratio)
    requires
        r.orig >= r.compr,
    ensures
        honest(available, swap_free, seq![], r) == available + swap_free * ((r.orig
            - r.compr) as nat) / (r.orig as nat),
{
}

/// Free zram yields no more than itself, and nothing where data does not
/// compress.
pub proof fn lemma_yield(free: nat, r: Ratio)
    requires
        r.orig > 0,
    ensures
        zram_yield(free, r) <= free,
        r.compr >= r.orig ==> zram_yield(free, r) == 0,
{
    let gain = less(r.orig as int, r.compr as int) as nat;
    let o = r.orig as nat;
    assert(free * gain / o <= free) by (nonlinear_arith)
        requires
            gain <= o,
            o > 0,
    ;
    if gain == 0 {
        assert(free * gain == 0) by (nonlinear_arith)
            requires
                gain == 0,
        ;
        assert(0nat / o == 0) by (nonlinear_arith)
            requires
                o > 0,
        ;
    }
}

/// Stall is a share: it never exceeds the whole interval.
pub proof fn stall_is_a_share(prev: PsiRaw, then: u64, raw: PsiRaw, now: u64)
    ensures
        stall_between(prev, then, raw, now) matches Some(s) ==> s.some <= 1_000_000_000 && s.full
            <= 1_000_000_000,
{
    let e = clock::since(now, then) / 1000;
    if e > 0 {
        lemma_stalled(raw.some_total_us, prev.some_total_us, e);
        lemma_stalled(raw.full_total_us, prev.full_total_us, e);
    }
}

proof fn lemma_stalled(now: u64, then: u64, e: int)
    requires
        e > 0,
    ensures
        0 <= stalled(now, then, e) <= 1_000_000_000,
{
    let d = less(now as int, then as int);
    if d < e {
        assert(0 <= d * 1_000_000_000 / e <= 1_000_000_000) by (nonlinear_arith)
            requires
                0 <= d < e,
        ;
    }
}

proof fn lemma_free_on_push(devices: Seq<SwapDevice>, d: SwapDevice, zram: bool, n: int)
    requires
        0 <= n <= devices.len(),
    ensures
        free_on(devices.push(d), zram, n) == free_on(devices, zram, n),
    decreases n,
{
    if n > 0 {
        lemma_free_on_push(devices, d, zram, n - 1);
    }
}

proof fn lemma_free_on_update(devices: Seq<SwapDevice>, i: int, d: SwapDevice, zram: bool, n: int)
    requires
        0 <= i < devices.len(),
        0 <= n <= devices.len(),
        d.is_zram == devices[i].is_zram,
    ensures
        free_on(devices.update(i, d), zram, n) == free_on(devices, zram, n) + (if i < n
            && devices[i].is_zram == zram {
            d.free_kb - devices[i].free_kb
        } else {
            0
        }),
    decreases n,
{
    if n > 0 {
        lemma_free_on_update(devices, i, d, zram, n - 1);
    }
}

/// Available memory counts one for one.
pub proof fn available_counts_in_full(
    available: nat,
    more: nat,
    swap_free: nat,
    devices: Seq<SwapDevice>,
    r: Ratio,
)
    ensures
        honest(available + more, swap_free, devices, r) == honest(available, swap_free, devices, r)
            + more,
{
}

/// A disk swap device more, whose free space the kernel counts as free swap,
/// raises honest headroom by all of that space, whatever the ratio.
pub proof fn disk_swap_counts_in_full(
    available: nat,
    swap_free: nat,
    devices: Seq<SwapDevice>,
    d: SwapDevice,
    r: Ratio,
)
    requires
        !d.is_zram,
    ensures
        honest(available, swap_free + d.free_kb as nat, devices.push(d), r) == honest(
            available,
            swap_free,
            devices,
            r,
        ) + d.free_kb,
{
    lemma_free_on_push(devices, d, false, devices.len() as int);
    lemma_free_on_push(devices, d, true, devices.len() as int);
}

/// A kilobyte more that is free on a disk swap device, and so in the kernel's
/// count, is a kilobyte more of honest headroom, whatever the ratio.
pub proof fn a_free_kilobyte_on_disk_is_a_kilobyte(
    available: nat,
    swap_free: nat,
    devices: Seq<SwapDevice>,
    i: int,
    r: Ratio,
)
    requires
        0 <= i < devices.len(),
        !devices[i].is_zram,
        devices[i].free_kb < u64::MAX,
    ensures
        honest(
            available,
            swap_free + 1,
            devices.update(
                i,
                SwapDevice { is_zram: false, free_kb: (devices[i].free_kb + 1) as u64 },
            ),
            r,
        ) == honest(available, swap_free, devices, r) + 1,
{
    let d = SwapDevice { is_zram: false, free_kb: (devices[i].free_kb + 1) as u64 };
    lemma_free_on_update(devices, i, d, false, devices.len() as int);
    lemma_free_on_update(devices, i, d, true, devices.len() as int);
}

/// A zram device more says only where free swap is, and that is how it was taken
/// already: where the kernel counts at least what the devices show, nothing
/// changes. Where it counts less, it is as if it counted that much.
pub proof fn unaccounted_swap_is_taken_for_zram(
    available: nat,
    swap_free: nat,
    devices: Seq<SwapDevice>,
    d: SwapDevice,
    r: Ratio,
)
    requires
        d.is_zram,
    ensures
        ({
            let shown = classified(devices) + d.free_kb as nat;
            honest(available, swap_free, devices.push(d), r) == honest(
                available,
                if swap_free >= shown {
                    swap_free
                } else {
                    shown
                },
                devices,
                r,
            )
        }),
{
    lemma_free_on_push(devices, d, false, devices.len() as int);
    lemma_free_on_push(devices, d, true, devices.len() as int);
}

/// Without zram, and with every free kilobyte of swap on a disk device, honest
/// headroom is what the kernel advertises: `MemAvailable` and `SwapFree`.
pub proof fn without_zram_nothing_is_phantom(
    available: nat,
    swap_free: nat,
    devices: Seq<SwapDevice>,
    r: Ratio,
)
    requires
        r.orig > 0,
        forall|i: int| 0 <= i < devices.len() ==> !(#[trigger] devices[i]).is_zram,
        classified(devices) == swap_free,
    ensures
        honest(available, swap_free, devices, r) == available + swap_free,
    decreases devices.len(),
{
    if devices.len() == 0 {
        no_swap_yields_nothing(available, r);
    } else {
        let rest = devices.drop_last();
        let d = devices.last();
        assert(devices =~= rest.push(d));
        assert(!devices[devices.len() - 1].is_zram);
        assert forall|i: int| 0 <= i < rest.len() implies !(#[trigger] rest[i]).is_zram by {
            assert(!devices[i].is_zram);
        }
        lemma_free_on_push(rest, d, false, rest.len() as int);
        lemma_free_on_push(rest, d, true, rest.len() as int);
        assert(classified(rest) + d.free_kb == classified(devices));
        without_zram_nothing_is_phantom(available, classified(rest), rest, r);
        disk_swap_counts_in_full(available, classified(rest), rest, d, r);
    }
}

/// With no swap at all, honest headroom is what is available.
pub proof fn no_swap_yields_nothing(available: nat, r: Ratio)
    requires
        r.orig > 0,
    ensures
        honest(available, 0, seq![], r) == available,
{
    lemma_yield(0, r);
}

/// Before enough data was seen, half of compressed swap counts; data that does
/// not compress counts for nothing; and data that compresses `n` to one leaves
/// all but the `n`-th part.
pub proof fn compression_is_what_zram_yields(available: nat, parts: nat, compr: u64, n: u64, z: ZramTotals)
    requires
        compr > 0,
        n > 0,
        n * compr <= u64::MAX,
    ensures
        honest(
            available,
            (n * parts) as nat,
            seq![],
            (Ratio { orig: (n * compr) as u64, compr }),
        ) == available + (n - 1) * parts,
        z.compr_bytes == 0 || z.orig_bytes < 16 * 1024 * 1024 ==> honest(
            available,
            2 * parts,
            seq![],
            ratio_or_assumed(observed(z)),
        ) == available + parts,
        z.compr_bytes > 0 && z.orig_bytes >= 16 * 1024 * 1024 ==> ratio_or_assumed(observed(z)) == (
        Ratio { orig: z.orig_bytes, compr: z.compr_bytes }),
{
    lemma_even_yield(parts, compr as int, n as int);
    let o = (n * compr) as u64;
    assert(o == n * compr && o >= compr) by (nonlinear_arith)
        requires
            o == (n * compr) as u64,
            n * compr <= u64::MAX,
            n > 0,
            compr > 0,
    ;
    let all = (n * parts) as nat;
    assert(n * parts >= 0) by (nonlinear_arith);
    assert(less(o as int, compr as int) == n * compr - compr);
    assert(honest(available, all, seq![], Ratio { orig: o, compr }) == available + zram_yield(
        all,
        Ratio { orig: o, compr },
    ));
    lemma_even_yield(parts, 1, 2);
}

proof fn lemma_even_yield(parts: nat, compr: int, n: int)
    requires
        compr > 0,
        n > 0,
    ensures
        (n * parts) * (n * compr - compr) / (n * compr) == (n - 1) * parts,
{
    let o = n * compr;
    assert(o > 0) by (nonlinear_arith)
        requires
            o == n * compr,
            n > 0,
            compr > 0,
    ;
    let q = (n - 1) * parts;
    assert((n * parts) * (n * compr - compr) == q * o) by (nonlinear_arith)
        requires
            o == n * compr,
            q == (n - 1) * parts,
    ;
    vstd::arithmetic::div_mod::lemma_div_by_multiple(q, o);
}

/// A machine whose swap is all on disks has all that the kernel advertises: its
/// snapshot shows available memory and free swap as headroom, and no phantom.
pub proof fn a_snapshot_of_disk_swap_is_the_kernels(
    m: MemorySnapshot,
    meminfo: Seq<char>,
    swaps: Seq<char>,
    z: ZramTotals,
)
    requires
        shows(m, meminfo, swaps, z),
        forall|i: int| 0 <= i < swap_table(swaps).len() ==> !(#[trigger] swap_table(swaps)[i]).is_zram,
        classified(swap_table(swaps)) == m.swap_free_kb,
    ensures
        m.honest_headroom_kb == m.available_kb + m.swap_free_kb,
{
    without_zram_nothing_is_phantom(
        m.available_kb as nat,
        m.swap_free_kb as nat,
        swap_table(swaps),
        ratio_or_assumed(observed(z)),
    );
}

/// A machine whose swaps cannot be told apart, with no compression seen yet, is
/// credited with half its free swap.
pub proof fn a_snapshot_of_unknown_swap_is_cautious(
    m: MemorySnapshot,
    meminfo: Seq<char>,
    swaps: Seq<char>,
    z: ZramTotals,
)
    requires
        shows(m, meminfo, swaps, z),
        swap_table(swaps).len() == 0,
        z.compr_bytes == 0,
    ensures
        m.honest_headroom_kb == m.available_kb + m.swap_free_kb / 2,
        m.compression_ratio is None,
{
    assert(swap_table(swaps) =~= seq![]);
    let n = m.swap_free_kb as nat;
    assert(honest(m.available_kb as nat, n, seq![], assumed_ratio()) == m.available_kb + n * 1 / 2);
}

/// Exactly one line of a table is of a key, and the first word behind the key is
/// a number.
pub open spec fn tells(table: Seq<char>, key: Seq<char>, n: nat) -> bool {
    exists|i: int| #[trigger] tells_at(text::lines(table), key, n, i)
}

pub open spec fn tells_at(lines: Seq<Seq<char>>, key: Seq<char>, n: nat, i: int) -> bool {
    &&& 0 <= i < lines.len()
    &&& lines[i].len() >= key.len()
    &&& lines[i].take(key.len() as int) == key
    &&& text::words(lines[i].skip(key.len() as int)).len() > 0
    &&& text::number(text::words(lines[i].skip(key.len() as int))[0], u64::MAX as nat) == Some(n)
    &&& forall|j: int|
        0 <= j < lines.len() && j != i && (#[trigger] lines[j]).len() >= key.len()
            ==> lines[j].take(key.len() as int) != key
}

proof fn lemma_tells(lines: Seq<Seq<char>>, key: Seq<char>, n: nat, i: int)
    requires
        tells_at(lines, key, n, i),
    ensures
        field_in(lines, key) == Some(n),
    decreases lines.len(),
{
    if i > 0 {
        assert(lines[0].len() >= key.len() ==> lines[0].take(key.len() as int) != key);
        let rest = lines.skip(1);
        assert(line_field(lines[0], key) is None);
        assert(rest[i - 1] == lines[i]);
        assert forall|j: int|
            0 <= j < rest.len() && j != i - 1 && (#[trigger] rest[j]).len() >= key.len() implies
            rest[j].take(key.len() as int) != key by {
            assert(rest[j] == lines[j + 1]);
        }
        lemma_tells(rest, key, n, i - 1);
    }
}

/// A snapshot holds what the table tells of each key, in its own field.
pub proof fn a_snapshot_holds_what_the_table_tells(
    m: MemorySnapshot,
    meminfo: Seq<char>,
    swaps: Seq<char>,
    z: ZramTotals,
    n: nat,
)
    requires
        shows(m, meminfo, swaps, z),
    ensures
        tells(meminfo, "MemTotal:"@, n) ==> m.total_kb == n,
        tells(meminfo, "MemAvailable:"@, n) ==> m.available_kb == n,
        tells(meminfo, "MemFree:"@, n) ==> m.free_kb == n,
        tells(meminfo, "SwapTotal:"@, n) ==> m.swap_total_kb == n,
        tells(meminfo, "SwapFree:"@, n) ==> m.swap_free_kb == n,
        m.zram_cost_kb == z.mem_used_kb,
{
    let l = text::lines(meminfo);
    if tells(meminfo, "MemTotal:"@, n) {
        lemma_tells(l, "MemTotal:"@, n, choose|i: int| #[trigger] tells_at(l, "MemTotal:"@, n, i));
    }
    if tells(meminfo, "MemAvailable:"@, n) {
        lemma_tells(
            l,
            "MemAvailable:"@,
            n,
            choose|i: int| #[trigger] tells_at(l, "MemAvailable:"@, n, i),
        );
    }
    if tells(meminfo, "MemFree:"@, n) {
        lemma_tells(l, "MemFree:"@, n, choose|i: int| #[trigger] tells_at(l, "MemFree:"@, n, i));
    }
    if tells(meminfo, "SwapTotal:"@, n) {
        lemma_tells(l, "SwapTotal:"@, n, choose|i: int| #[trigger] tells_at(l, "SwapTotal:"@, n, i));
    }
    if tells(meminfo, "SwapFree:"@, n) {
        lemma_tells(l, "SwapFree:"@, n, choose|i: int| #[trigger] tells_at(l, "SwapFree:"@, n, i));
    }
}

/// A row of the swap table whose third and fourth words are numbers is a device
/// with so much less than its size free as is used, and it is zram where its name
/// begins that way. Any other row is none.
pub proof fn a_swap_row_is_size_less_used(line: Seq<char>, size: nat, used: nat)
    ensures
        ({
            let w = text::words(line);
            let r = swap_row(line);
            &&& r is Some <==> w.len() >= 4 && text::number(w[2], u64::MAX as nat) is Some
                && text::number(w[3], u64::MAX as nat) is Some
            &&& r is Some && text::number(w[2], u64::MAX as nat) == Some(size) && text::number(
                w[3],
                u64::MAX as nat,
            ) == Some(used) ==> (used <= size ==> r->0.free_kb + used == size) && (used > size
                ==> r->0.free_kb == 0)
            &&& r is Some ==> (r->0.is_zram <==> w[0].len() >= 9 && w[0].take(9) == "/dev/zram"@)
        }),
{
    reveal_strlit("/dev/zram");
    lemma_number_fits(text::words(line)[2]);
}

proof fn lemma_number_fits(w: Seq<char>)
    ensures
        text::number(w, u64::MAX as nat) matches Some(n) ==> n <= u64::MAX,
{
}

/// What a table shows of its devices: each line behind the heading that is a row
/// is one of them, in order, and nothing else is.
pub proof fn a_swap_table_is_its_rows(lines: Seq<Seq<char>>, n: int)
    requires
        0 <= n < lines.len(),
    ensures
        swap_row(lines[n]) matches Some(d) ==> swap_rows(lines, n + 1) == swap_rows(lines, n).push(d),
        swap_row(lines[n]) is None ==> swap_rows(lines, n + 1) == swap_rows(lines, n),
        swap_rows(lines, 0).len() == 0,
{
}

/// The share of time stalled: parts of a billion, rounded down, of the
/// microseconds that passed between two readings; nothing where the counter did
/// not move, and all where it moved by as much as passed, or more.
pub proof fn stall_is_the_part_of_the_time_that_passed(
    prev: PsiRaw,
    then: u64,
    raw: PsiRaw,
    now: u64,
)
    requires
        then + 1000 <= now,
    ensures
        ({
            let us = (now - then) / 1000;
            let r = stall_since(Some((prev, then)), raw, now);
            &&& r is Some
            &&& is_part(r->0.some as int, raw.some_total_us - prev.some_total_us, us)
            &&& is_part(r->0.full as int, raw.full_total_us - prev.full_total_us, us)
        }),
{
    let e = clock::since(now, then) / 1000;
    lemma_part(raw.some_total_us, prev.some_total_us, e);
    lemma_part(raw.full_total_us, prev.full_total_us, e);
}

/// A number of parts of a billion is what `moved` is of `passed`.
pub open spec fn is_part(parts: int, moved: int, passed: int) -> bool {
    &&& moved <= 0 ==> parts == 0
    &&& moved >= passed ==> parts == 1_000_000_000
    &&& 0 < moved < passed ==> parts * passed <= moved * 1_000_000_000 < (parts + 1) * passed
}

proof fn lemma_part(now: u64, then: u64, e: int)
    requires
        e > 0,
    ensures
        is_part(stalled(now, then, e), now - then, e),
        0 <= stalled(now, then, e) <= 1_000_000_000,
{
    lemma_stalled(now, then, e);
    let d = less(now as int, then as int);
    if d == 0 {
        assert(0int / e == 0) by (nonlinear_arith)
            requires
                e > 0,
        ;
    } else if d < e {
        let q = d * 1_000_000_000 / e;
        assert(q * e <= d * 1_000_000_000 < (q + 1) * e) by (nonlinear_arith)
            requires
                q == (d * 1_000_000_000) / e,
                e > 0,
        ;
    }
}

/// No stall is told of one reading alone, nor of two less than a microsecond
/// apart or in the wrong order.
pub proof fn stall_takes_two_readings(prev: PsiRaw, then: u64, raw: PsiRaw, now: u64)
    requires
        now < then + 1000,
    ensures
        stall_since(Some((prev, then)), raw, now) is None,
        stall_since(None, raw, now) is None,
{
}

/// One `mm_stat` counts by its first three numbers: bytes held, bytes they take
/// compressed, and kilobytes of memory spent. One with fewer counts for nothing.
pub proof fn a_device_counts_by_its_first_three_numbers(stats: Seq<Seq<char>>, n: int)
    requires
        0 <= n < stats.len(),
    ensures
        ({
            let v = numbers_in(stats[n]);
            let (o, c, m) = stat_sums(stats, n);
            let (o1, c1, m1) = stat_sums(stats, n + 1);
            &&& v.len() >= 3 ==> o1 == o + v[0] && c1 == c + v[1] && m1 == m + v[2] / 1024
            &&& v.len() < 3 ==> (o1, c1, m1) == (o, c, m)
            &&& stat_sums(stats, 0) == (0nat, 0nat, 0nat)
        }),
{
}

proof fn lemma_tells_nothing(lines: Seq<Seq<char>>, key: Seq<char>)
    requires
        forall|i: int| 0 <= i < lines.len() ==> !text::starts(#[trigger] lines[i], key),
    ensures
        field_in(lines, key) is None,
    decreases lines.len(),
{
    if lines.len() > 0 {
        assert(!text::starts(lines[0], key));
        assert(line_field(lines[0], key) is None);
        let rest = lines.skip(1);
        assert forall|i: int| 0 <= i < rest.len() implies !text::starts(#[trigger] rest[i], key) by {
            assert(rest[i] == lines[i + 1]);
        }
        lemma_tells_nothing(rest, key);
    }
}

/// What no line of the table begins with counts as nothing.
pub proof fn what_the_table_does_not_tell_is_nothing(
    m: MemorySnapshot,
    meminfo: Seq<char>,
    swaps: Seq<char>,
    z: ZramTotals,
    key: Seq<char>,
)
    requires
        shows(m, meminfo, swaps, z),
        forall|i: int|
            0 <= i < text::lines(meminfo).len() ==> !text::starts(
                #[trigger] text::lines(meminfo)[i],
                key,
            ),
    ensures
        key == "MemTotal:"@ ==> m.total_kb == 0,
        key == "MemAvailable:"@ ==> m.available_kb == 0,
        key == "MemFree:"@ ==> m.free_kb == 0,
        key == "SwapTotal:"@ ==> m.swap_total_kb == 0,
        key == "SwapFree:"@ ==> m.swap_free_kb == 0,
{
    lemma_tells_nothing(text::lines(meminfo), key);
}

} // verus!
