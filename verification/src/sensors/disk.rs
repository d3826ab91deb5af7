//! Filesystem capacity sensing.
//!
//! Free space is reported as the blocks available to unprivileged users rather
//! than all free blocks. The two differ by the root reserve, typically 5%, and
//! only the first answers the question that matters: *can this process actually
//! write?* Reporting the other would overstate headroom in exactly the way free
//! swap overstates memory — the same class of comfortable lie this project
//! already corrects for once.

use crate::text;
use vstd::prelude::*;

verus! {

#[derive(Debug, Clone, PartialEq)]
pub struct MountUsage {
    pub path: String,
    pub total_kb: u64,
    /// Available to unprivileged writers, excluding the root reserve.
    pub available_kb: u64,
    pub inodes_total: u64,
    pub inodes_free: u64,
}

/// The parts per hundred thousand that `used` is of `total`, rounded down.
pub open spec fn share(used: int, total: int) -> int {
    if total == 0 {
        0
    } else {
        used * 100_000 / total
    }
}

fn share_of(used: u64, total: u64) -> (r: u64)
    requires
        used <= total,
    ensures
        r == share(used as int, total as int),
        r <= 100_000,
{
    if total == 0 {
        return 0;
    }
    let q: u128 = used as u128 * 100_000 / total as u128;
    assert(q <= 100_000) by (nonlinear_arith)
        requires
            q == used * 100_000 / total as int,
            used <= total,
            total > 0,
    ;
    q as u64
}

impl MountUsage {
    pub open spec fn used(&self) -> int {
        if self.total_kb >= self.available_kb {
            self.total_kb - self.available_kb
        } else {
            0
        }
    }

    pub fn used_kb(&self) -> (r: u64)
        ensures
            r == self.used(),
    {
        self.total_kb.saturating_sub(self.available_kb)
    }

    /// Percentage of usable capacity consumed, in thousandths of a percent:
    /// at most 100 000.
    pub fn used_pct(&self) -> (r: u64)
        ensures
            r == share(self.used(), self.total_kb as int),
            r <= 100_000,
    {
        share_of(self.used_kb(), self.total_kb)
    }

    pub fn available_mib(&self) -> (r: u64)
        ensures
            r == self.available_kb / 1024,
    {
        self.available_kb / 1024
    }

    /// Inode exhaustion is a distinct failure: a filesystem can be 40% empty by
    /// bytes and still refuse to create a file. In thousandths of a percent.
    /// Filesystems that report no inodes read as zero; that is not a failure
    /// signal.
    pub fn inodes_used_pct(&self) -> (r: u64)
        ensures
            r == share(
                if self.inodes_total >= self.inodes_free {
                    self.inodes_total - self.inodes_free
                } else {
                    0
                },
                self.inodes_total as int,
            ),
            r <= 100_000,
    {
        share_of(self.inodes_total.saturating_sub(self.inodes_free), self.inodes_total)
    }
}

/// The figures of a `statvfs` call.
#[derive(Debug, Clone, Copy)]
pub struct BlockCounts {
    /// Fragment size: the multiplier for block counts.
    pub frsize: u64,
    /// Preferred I/O size, used where no fragment size is given.
    pub bsize: u64,
    pub blocks: u64,
    pub bavail: u64,
    pub files: u64,
    pub ffree: u64,
}

pub open spec fn block_size(c: BlockCounts) -> u64 {
    if c.frsize > 0 {
        c.frsize
    } else {
        c.bsize
    }
}

/// Kilobytes in so many blocks, the bytes capped at what a `u64` holds.
pub open spec fn blocks_kb(n: u64, block: u64) -> int {
    if n * block <= u64::MAX {
        (n * block) / 1024
    } else {
        u64::MAX as int / 1024
    }
}

fn blocks_to_kb(n: u64, block: u64) -> (r: u64)
    ensures
        r == blocks_kb(n, block),
{
    assert(n * block <= u64::MAX * u64::MAX) by (nonlinear_arith)
        requires
            n <= u64::MAX,
            block <= u64::MAX,
    ;
    let bytes: u128 = n as u128 * block as u128;
    if bytes <= u64::MAX as u128 {
        (bytes / 1024) as u64
    } else {
        u64::MAX / 1024
    }
}

/// One path's usage from the counts of its filesystem.
pub fn usage_of(path: &str, c: BlockCounts) -> (r: MountUsage)
    ensures
        r.path@ == path@,
        r.total_kb == blocks_kb(c.blocks, block_size(c)),
        r.available_kb == blocks_kb(c.bavail, block_size(c)),
        r.inodes_total == c.files,
        r.inodes_free == c.ffree,
{
    let block: u64 = if c.frsize > 0 {
        c.frsize
    } else {
        c.bsize
    };
    MountUsage {
        path: path.to_string(),
        total_kb: blocks_to_kb(c.blocks, block),
        available_kb: blocks_to_kb(c.bavail, block),
        inodes_total: c.files,
        inodes_free: c.ffree,
    }
}

/// Keep the paths that could be sampled, in order.
///
/// An unmounted or removed root drops out of monitoring rather than aborting
/// the whole sample.
pub fn sample(readings: Vec<(String, Option<BlockCounts>)>) -> (r: Vec<MountUsage>)
    ensures
        sampled(readings@, readings@.len() as int, r@),
{
    let mut out: Vec<MountUsage> = Vec::new();
    let mut i: usize = 0;
    while i < readings.len()
        invariant
            i <= readings.len(),
            sampled(readings@, i as int, out@),
        decreases readings.len() - i,
    {
        match readings[i].1 {
            Some(c) => {
                let u = usage_of(readings[i].0.as_str(), c);
                let ghost prev = out@;
                out.push(u);
                assert(out@.drop_last() =~= prev);
            },
            None => {},
        }
        i += 1;
    }
    out
}

/// `out` holds the usage of each of the first `n` readings that succeeded.
pub open spec fn sampled(
    readings: Seq<(String, Option<BlockCounts>)>,
    n: int,
    out: Seq<MountUsage>,
) -> bool
    decreases n,
{
    if n <= 0 {
        out.len() == 0
    } else {
        match readings[n - 1].1 {
            None => sampled(readings, n - 1, out),
            Some(c) => {
                &&& out.len() > 0
                &&& out.last().path@ == readings[n - 1].0@
                &&& out.last().total_kb == blocks_kb(c.blocks, block_size(c))
                &&& out.last().available_kb == blocks_kb(c.bavail, block_size(c))
                &&& out.last().inodes_total == c.files
                &&& out.last().inodes_free == c.ffree
                &&& sampled(readings, n - 1, out.drop_last())
            },
        }
    }
}

/// `i` is the first of those with the least space available.
pub open spec fn is_tightest(usages: Seq<MountUsage>, i: int) -> bool {
    &&& 0 <= i < usages.len()
    &&& forall|j: int|
        0 <= j < usages.len() ==> usages[i].available_kb <= #[trigger] usages[j].available_kb
    &&& forall|j: int| 0 <= j < i ==> usages[i].available_kb < #[trigger] usages[j].available_kb
}

/// The tightest mount among those sampled, by available bytes.
///
/// The governor keys on the worst mount rather than an average: filling any one
/// filesystem breaks the things that live on it, and averaging a full `/home`
/// against an empty `/boot` would hide precisely the condition worth acting on.
pub fn tightest(usages: &[MountUsage]) -> (r: Option<&MountUsage>)
    ensures
        r is None <==> usages@.len() == 0,
        r matches Some(u) ==> exists|i: int| is_tightest(usages@, i) && *u == #[trigger] usages@[i],
{
    if usages.len() == 0 {
        return None;
    }
    let mut best: usize = 0;
    let mut i: usize = 1;
    while i < usages.len()
        invariant
            1 <= i <= usages.len(),
            best < i,
            forall|j: int|
                0 <= j < i ==> usages@[best as int].available_kb <= #[trigger] usages@[j].available_kb,
            forall|j: int|
                0 <= j < best ==> usages@[best as int].available_kb
                    < #[trigger] usages@[j].available_kb,
        decreases usages.len() - i,
    {
        if usages[i].available_kb < usages[best].available_kb {
            best = i;
        }
        i += 1;
    }
    assert(is_tightest(usages@, best as int));
    Some(&usages[best])
}

/// A path that is the root, however it is written.
pub open spec fn names_root(p: Seq<char>) -> bool {
    p.len() > 0 && p[0] == '/' && forall|i: int|
        0 <= i < text::split(p, '/').len() ==> {
            ||| #[trigger] text::split(p, '/')[i] == ""@
            ||| text::split(p, '/')[i] == "."@
        }
}

fn is_root_path(p: &str) -> (r: bool)
    ensures
        r == names_root(p@),
{
    let v = text::chars_of(p);
    if v.len() == 0 || v[0] != '/' {
        return false;
    }
    let parts = text::split_str(p, '/');
    let mut i: usize = 0;
    while i < parts.len()
        invariant
            i <= parts.len(),
            text::strs(parts@) == text::split(p@, '/'),
            forall|j: int|
                0 <= j < i ==> {
                    ||| #[trigger] text::split(p@, '/')[j] == ""@
                    ||| text::split(p@, '/')[j] == "."@
                },
        decreases parts.len() - i,
    {
        assert(text::strs(parts@)[i as int] == parts@[i as int]@);
        if !text::same(parts[i].as_str(), "") && !text::same(parts[i].as_str(), ".") {
            assert(text::split(p@, '/')[i as int] == parts@[i as int]@);
            return false;
        }
        i += 1;
    }
    true
}

/// The root, and the home directory where that is another.
pub open spec fn usual_paths(home: Option<&str>) -> Seq<Seq<char>> {
    match home {
        Some(h) => if names_root(h@) {
            seq!["/"@]
        } else {
            seq!["/"@, h@]
        },
        None => seq!["/"@],
    }
}

/// Paths worth watching when the operator has configured none.
///
/// `/` and `$HOME` cover the cases that actually wedge a session. Missing paths
/// are dropped by [`sample`], so listing a path that does not exist is harmless.
pub fn default_paths(home: Option<&str>) -> (r: Vec<String>)
    ensures
        text::strs(r@) == usual_paths(home),
{
    let mut out: Vec<String> = Vec::new();
    out.push("/".to_string());
    match home {
        Some(h) => {
            if !is_root_path(h) {
                out.push(h.to_string());
                assert(text::strs(out@) =~= seq!["/"@, h@]);
                return out;
            }
        },
        None => {},
    }
    assert(text::strs(out@) =~= seq!["/"@]);
    out
}

/// There is one tightest mount at most.
pub proof fn the_tightest_is_one(usages: Seq<MountUsage>, i: int, j: int)
    requires
        is_tightest(usages, i),
        is_tightest(usages, j),
    ensures
        i == j,
{
    if i < j {
        assert(usages[j].available_kb < usages[i].available_kb);
    }
    if j < i {
        assert(usages[i].available_kb < usages[j].available_kb);
    }
}

/// A share is rounded down to a thousandth of a percent, and is nothing of
/// nothing.
pub proof fn a_share_is_the_part_of_the_whole(used: int, total: int)
    requires
        0 <= used <= total,
    ensures
        total > 0 ==> share(used, total) * total <= used * 100_000 < (share(used, total) + 1)
            * total,
        total == 0 ==> share(used, total) == 0,
        total > 0 ==> share(total, total) == 100_000 && share(0, total) == 0,
{
    if total > 0 {
        let q = used * 100_000 / total;
        assert(q * total <= used * 100_000 < (q + 1) * total) by (nonlinear_arith)
            requires
                q == (used * 100_000) / total,
                total > 0,
        ;
        assert(total * 100_000 / total == 100_000) by (nonlinear_arith)
            requires
                total > 0,
        ;
        assert(0int * 100_000 / total == 0) by (nonlinear_arith)
            requires
                total > 0,
        ;
    }
}

/// What is used is what is not available: the two make up the whole.
pub proof fn used_and_available_are_the_whole(m: MountUsage)
    requires
        m.available_kb <= m.total_kb,
    ensures
        m.used() + m.available_kb == m.total_kb,
{
}

/// Blocks are counted in fragments where the filesystem tells their size, and in
/// its preferred size elsewhere; the bytes are never more than a `u64` holds.
pub proof fn blocks_are_counted_in_fragments(n: u64, c: BlockCounts)
    ensures
        c.frsize > 0 && n * c.frsize <= u64::MAX ==> blocks_kb(n, block_size(c)) == (n * c.frsize)
            / 1024,
        c.frsize == 0 && n * c.bsize <= u64::MAX ==> blocks_kb(n, block_size(c)) == (n * c.bsize)
            / 1024,
        c.frsize > 0 && n * c.frsize > u64::MAX ==> blocks_kb(n, block_size(c))
            == 18_014_398_509_481_983,
{
}

/// Every reading that succeeded is among the usages, in its order and under its
/// path, with what is available to those without privileges; and nothing else is.
pub proof fn every_reading_that_succeeded_is_kept(
    readings: Seq<(String, Option<BlockCounts>)>,
    n: int,
    out: Seq<MountUsage>,
)
    requires
        0 <= n <= readings.len(),
        sampled(readings, n, out),
        forall|i: int| 0 <= i < n ==> (#[trigger] readings[i]).1 is Some,
    ensures
        out.len() == n,
        forall|i: int|
            0 <= i < n ==> {
                let c = readings[i].1->0;
                &&& (#[trigger] out[i]).path@ == readings[i].0@
                &&& out[i].total_kb == blocks_kb(c.blocks, block_size(c))
                &&& out[i].available_kb == blocks_kb(c.bavail, block_size(c))
                &&& out[i].inodes_total == c.files
                &&& out[i].inodes_free == c.ffree
            },
    decreases n,
{
    if n > 0 {
        assert(readings[n - 1].1 is Some);
        every_reading_that_succeeded_is_kept(readings, n - 1, out.drop_last());
        assert forall|i: int| 0 <= i < n implies {
            let c = readings[i].1->0;
            &&& (#[trigger] out[i]).path@ == readings[i].0@
            &&& out[i].total_kb == blocks_kb(c.blocks, block_size(c))
            &&& out[i].available_kb == blocks_kb(c.bavail, block_size(c))
            &&& out[i].inodes_total == c.files
            &&& out[i].inodes_free == c.ffree
        } by {
            if i < n - 1 {
                assert(out[i] == out.drop_last()[i]);
            }
        }
    }
}

/// A reading that failed leaves nothing.
pub proof fn a_reading_that_failed_leaves_nothing(
    readings: Seq<(String, Option<BlockCounts>)>,
    n: int,
    out: Seq<MountUsage>,
)
    requires
        0 < n <= readings.len(),
        readings[n - 1].1 is None,
    ensures
        sampled(readings, n, out) == sampled(readings, n - 1, out),
{
}

/// The root is always watched, and the home directory unless it is the root
/// itself.
pub proof fn the_root_and_home_are_watched(home: &str)
    ensures
        usual_paths(None) == seq!["/"@],
        home@ == "/"@ ==> usual_paths(Some(home)) == seq!["/"@],
        home@.len() > 0 && home@[0] != '/' ==> usual_paths(Some(home)) == seq!["/"@, home@],
        (exists|i: int|
            0 <= i < text::split(home@, '/').len() && (#[trigger] text::split(home@, '/')[i]).len()
                > 1) ==> usual_paths(Some(home)) == seq!["/"@, home@],
{
    reveal_strlit("/");
    reveal_strlit("");
    reveal_strlit(".");
    if home@ == "/"@ {
        let none = Seq::<char>::empty();
        assert(home@ =~= none.push('/') + none);
        text::lemma_split_cons(none, '/', none);
        text::lemma_split_one(none, '/');
        assert(text::split(home@, '/') =~= seq![none, none]);
        assert(""@ =~= none);
        assert(names_root(home@));
    }
}

} // verus!
