//! What `/proc` says of processes.

use crate::order;
use crate::sensors::memory;
use crate::text;
use vstd::prelude::*;

verus! {

/// A process as seen by a single scan. Intentionally minimal.
#[derive(Debug, Clone)]
pub struct ProcInfo {
    pub pid: u32,
    pub cmdline: String,
}

/// One byte of a command line as a character: NUL separates the arguments.
pub open spec fn cmdline_char(b: u8) -> char {
    if b == 0 {
        ' '
    } else {
        b as char
    }
}

/// A raw command line without one NUL at its end, as text.
pub open spec fn cmdline_text(raw: Seq<u8>) -> Seq<char> {
    let t = if raw.len() > 0 && raw.last() == 0 {
        raw.drop_last()
    } else {
        raw
    };
    t.map_values(|b: u8| cmdline_char(b))
}

/// `/proc/<pid>/cmdline` is NUL-separated and usually NUL-terminated.
pub fn render_cmdline(raw: &[u8]) -> (r: String)
    ensures
        r@ == cmdline_text(raw@),
{
    let n: usize = if raw.len() > 0 && raw[raw.len() - 1] == 0 {
        raw.len() - 1
    } else {
        raw.len()
    };
    let mut out = String::new();
    let mut i: usize = 0;
    while i < n
        invariant
            i <= n <= raw.len(),
            out@ == raw@.take(i as int).map_values(|b: u8| cmdline_char(b)),
        decreases n - i,
    {
        let b = raw[i];
        let c = if b == 0 {
            ' '
        } else {
            b as char
        };
        out.push(c);
        i += 1;
        assert(out@ =~= raw@.take(i as int).map_values(|b: u8| cmdline_char(b)));
    }
    assert(out@ =~= cmdline_text(raw@));
    out
}

/// A process, given the name of its `/proc` entry and its raw command line:
/// none where the name is no number or the command line is empty, which is how
/// a kernel thread shows.
pub fn process_of(name: &str, raw: &[u8]) -> (r: Option<ProcInfo>)
    ensures
        r is Some <==> text::number(name@, u32::MAX as nat) is Some && raw@.len() > 0,
        r matches Some(p) ==> text::number(name@, u32::MAX as nat) == Some(p.pid as nat)
            && p.cmdline@ == cmdline_text(raw@),
{
    if raw.len() == 0 {
        return None;
    }
    match text::parse_u32(name) {
        Some(pid) => Some(ProcInfo { pid, cmdline: render_cmdline(raw) }),
        None => None,
    }
}

/// A process and its command line.
pub open spec fn entry(p: ProcInfo) -> (u32, Seq<char>) {
    (p.pid, p.cmdline@)
}

pub open spec fn entries(v: Seq<ProcInfo>) -> Seq<(u32, Seq<char>)> {
    v.map_values(|p: ProcInfo| entry(p))
}

/// Those of the first `n` processes that were picked.
pub open spec fn picked(table: Seq<ProcInfo>, hits: Seq<bool>, n: int) -> Seq<(u32, Seq<char>)>
    decreases n,
{
    if n <= 0 {
        seq![]
    } else if hits[n - 1] {
        picked(table, hits, n - 1).push(entry(table[n - 1]))
    } else {
        picked(table, hits, n - 1)
    }
}

/// The predicate may say `hit` of a line.
pub open spec fn answered<F: Fn(&str) -> bool>(pred: F, line: Seq<char>, hit: bool) -> bool {
    exists|s: &str| s@ == line && #[trigger] call_ensures(pred, (s,), hit)
}

/// `hits` says of each process what the predicate says of its command line.
pub open spec fn answers<F: Fn(&str) -> bool>(pred: F, table: Seq<ProcInfo>, hits: Seq<bool>) -> bool {
    &&& hits.len() == table.len()
    &&& forall|i: int|
        0 <= i < table.len() ==> #[trigger] answered(pred, table[i].cmdline@, hits[i])
}

/// Collect every process whose command line satisfies `pred`.
pub fn find<F: Fn(&str) -> bool>(table: &Vec<ProcInfo>, pred: F) -> (r: Vec<ProcInfo>)
    requires
        forall|s: &str| #[trigger] call_requires(pred, (s,)),
    ensures
        exists|hits: Seq<bool>| #[trigger]
            answers(pred, table@, hits) && entries(r@) == picked(
                table@,
                hits,
                table@.len() as int,
            ),
{
    let mut out: Vec<ProcInfo> = Vec::new();
    let ghost mut hits: Seq<bool> = seq![];
    let mut i: usize = 0;
    assert(entries(out@) =~= picked(table@, hits, 0));
    while i < table.len()
        invariant
            i <= table.len(),
            forall|s: &str| #[trigger] call_requires(pred, (s,)),
            hits.len() == i,
            forall|k: int|
                0 <= k < i ==> #[trigger] answered(pred, table@[k].cmdline@, hits[k]),
            entries(out@) == picked(table@, hits, i as int),
        decreases table.len() - i,
    {
        let line = table[i].cmdline.as_str();
        let hit = pred(line);
        let ghost before = out@;
        let ghost old_hits = hits;
        proof {
            hits = hits.push(hit);
            lemma_picked_prefix(table@, old_hits, hits, i as int);
            assert(call_ensures(pred, (line,), hits[i as int]));
        }
        if hit {
            let p = ProcInfo { pid: table[i].pid, cmdline: table[i].cmdline.clone() };
            assert(entry(p) == entry(table@[i as int]));
            out.push(p);
            assert(entries(out@) =~= entries(before).push(entry(p)));
        }
        proof {
            assert forall|k: int| 0 <= k < i + 1 implies #[trigger] answered(
                pred,
                table@[k].cmdline@,
                hits[k],
            ) by {
                if k < i {
                    assert(answered(pred, table@[k].cmdline@, old_hits[k]));
                } else {
                    assert(call_ensures(pred, (line,), hits[k]));
                }
            }
        }
        i += 1;
    }
    assert(answers(pred, table@, hits));
    out
}

proof fn lemma_picked_prefix(table: Seq<ProcInfo>, a: Seq<bool>, b: Seq<bool>, n: int)
    requires
        n <= a.len(),
        n <= b.len(),
        forall|k: int| 0 <= k < n ==> a[k] == b[k],
    ensures
        picked(table, a, n) == picked(table, b, n),
    decreases n,
{
    if n > 0 {
        lemma_picked_prefix(table, a, b, n - 1);
    }
}

/// Resident set size in kB, from the contents of `/proc/<pid>/status`.
pub fn rss_kb(status: &str) -> (r: Option<u64>)
    ensures
        r matches Some(n) ==> memory::field_of(status@, "VmRSS:"@) == Some(n as nat),
        r is None ==> memory::field_of(status@, "VmRSS:"@) is None,
{
    memory::field(status, "VmRSS:")
}

/// The sum of what is there among the first `n`.
pub open spec fn present_sum(sizes: Seq<Option<u64>>, n: int) -> nat
    decreases n,
{
    if n <= 0 {
        0
    } else {
        match sizes[n - 1] {
            Some(k) => present_sum(sizes, n - 1) + k as nat,
            None => present_sum(sizes, n - 1),
        }
    }
}

proof fn lemma_present_grows(sizes: Seq<Option<u64>>, i: int, n: int)
    requires
        0 <= i <= n,
    ensures
        present_sum(sizes, i) <= present_sum(sizes, n),
    decreases n - i,
{
    if i < n {
        lemma_present_grows(sizes, i, n - 1);
    }
}

/// Total resident kB across processes, ignoring any that have exited; `None`
/// where it is beyond what a `u64` holds.
pub fn total_rss_kb(sizes: &Vec<Option<u64>>) -> (r: Option<u64>)
    ensures
        r is Some <==> present_sum(sizes@, sizes@.len() as int) <= u64::MAX,
        r matches Some(n) ==> n == present_sum(sizes@, sizes@.len() as int),
{
    let mut sum: u64 = 0;
    let mut i: usize = 0;
    while i < sizes.len()
        invariant
            i <= sizes.len(),
            sum == present_sum(sizes@, i as int),
        decreases sizes.len() - i,
    {
        proof {
            lemma_present_grows(sizes@, i + 1, sizes@.len() as int);
        }
        match sizes[i] {
            Some(k) => {
                if k > u64::MAX - sum {
                    return None;
                }
                sum = sum + k;
            },
            None => {},
        }
        i += 1;
    }
    Some(sum)
}

/// A process with its resident size, for "what is eating the machine?".
#[derive(Debug)]
pub struct RankedProc {
    pub pid: u32,
    pub comm: String,
    pub cmdline: String,
    pub rss_kb: u64,
}

pub struct RankedView {
    pub pid: u32,
    pub comm: Seq<char>,
    pub cmdline: Seq<char>,
    pub rss_kb: u64,
}

impl View for RankedProc {
    type V = RankedView;

    open spec fn view(&self) -> RankedView {
        RankedView {
            pid: self.pid,
            comm: self.comm@,
            cmdline: self.cmdline@,
            rss_kb: self.rss_kb,
        }
    }
}

impl Clone for RankedProc {
    fn clone(&self) -> (r: Self)
        ensures
            r@ == self@,
    {
        RankedProc {
            pid: self.pid,
            comm: self.comm.clone(),
            cmdline: self.cmdline.clone(),
            rss_kb: self.rss_kb,
        }
    }
}

pub open spec fn ranked_views(v: Seq<RankedProc>) -> Seq<RankedView> {
    v.map_values(|p: RankedProc| p@)
}

/// Kernel threads and trivial processes are noise on a page whose job is
/// identifying what to kill.
pub const NOISE_KB: u64 = 1024;

/// Those that are not noise, in order.
pub open spec fn weighty(v: Seq<RankedView>) -> Seq<RankedView> {
    v.filter(|p: RankedView| p.rss_kb >= NOISE_KB)
}

/// `top` is the largest `n` of `all` by resident size, largest first.
pub open spec fn is_top(all: Seq<RankedView>, n: nat, top: Seq<RankedView>) -> bool {
    exists|r: Seq<usize>| #[trigger] ranks(all, r) && top == order::arranged(all, r).take(
        if n < all.len() {
            n as int
        } else {
            all.len() as int
        },
    )
}

/// `r` orders all of them by descending size; those of one size keep their
/// order.
pub open spec fn ranks(all: Seq<RankedView>, r: Seq<usize>) -> bool {
    &&& order::arranges(r, all.len())
    &&& forall|i: int, j: int|
        0 <= i < j < r.len() ==> {
            let a = #[trigger] all[r[i] as int].rss_kb;
            let b = #[trigger] all[r[j] as int].rss_kb;
            a > b || (a == b && r[i] < r[j])
        }
}

fn keep_weighty(all: &Vec<RankedProc>) -> (r: Vec<RankedProc>)
    ensures
        ranked_views(r@) == weighty(ranked_views(all@)),
{
    let ghost views = ranked_views(all@);
    let ghost keep = |p: RankedView| p.rss_kb >= NOISE_KB;
    let mut out: Vec<RankedProc> = Vec::new();
    let mut i: usize = 0;
    proof {
        text::lemma_filter_none(views, keep);
        assert(ranked_views(out@) =~= seq![]);
    }
    while i < all.len()
        invariant
            i <= all.len(),
            views == ranked_views(all@),
            keep == (|p: RankedView| p.rss_kb >= NOISE_KB),
            ranked_views(out@) == views.take(i as int).filter(keep),
        decreases all.len() - i,
    {
        proof {
            text::lemma_filter_next(views, keep, i as int);
        }
        assert(views[i as int] == all@[i as int]@);
        if all[i].rss_kb >= NOISE_KB {
            let ghost prev = out@;
            let p = all[i].clone();
            out.push(p);
            assert(ranked_views(out@) =~= ranked_views(prev).push(p@));
        }
        i += 1;
    }
    assert(views.take(i as int) =~= views);
    out
}

/// The `n` largest processes by resident size, descending.
pub fn top_by_rss(all: &Vec<RankedProc>, n: usize) -> (r: Vec<RankedProc>)
    ensures
        is_top(weighty(ranked_views(all@)), n as nat, ranked_views(r@)),
{
    let kept = keep_weighty(all);
    let ghost views = ranked_views(kept@);
    let mut keys: Vec<Vec<u64>> = Vec::new();
    let mut i: usize = 0;
    while i < kept.len()
        invariant
            i <= kept.len(),
            keys@.len() == i,
            forall|k: int|
                0 <= k < i ==> (#[trigger] keys@[k])@ == seq![(u64::MAX - kept@[k].rss_kb) as u64],
        decreases kept.len() - i,
    {
        let mut key: Vec<u64> = Vec::new();
        key.push(u64::MAX - kept[i].rss_kb);
        assert(key@ =~= seq![(u64::MAX - kept@[i as int].rss_kb) as u64]);
        keys.push(key);
        i += 1;
    }
    let ranked = order::sort_positions(&keys);
    proof {
        let ks = order::key_views(keys@);
        assert forall|i: int, j: int| 0 <= i < j < ranked@.len() implies {
            let a = #[trigger] views[ranked@[i] as int].rss_kb;
            let b = #[trigger] views[ranked@[j] as int].rss_kb;
            a > b || (a == b && ranked@[i] < ranked@[j])
        } by {
            let x = ranked@[i] as int;
            let y = ranked@[j] as int;
            assert(order::before(ks, x, y));
            assert(ks[x] == keys@[x]@ && ks[y] == keys@[y]@);
            assert(ks[x][0] == (u64::MAX - kept@[x].rss_kb) as u64);
            assert(ks[y][0] == (u64::MAX - kept@[y].rss_kb) as u64);
            if ks[x] == ks[y] {
                assert(ks[x][0] == ks[y][0]);
            }
            if order::less(ks[x], ks[y]) && ks[x][0] == ks[y][0] {
                assert(ks[x].skip(1).len() == 0 && ks[y].skip(1).len() == 0);
                assert(!order::less(ks[x].skip(1), ks[y].skip(1)));
            }
        }
        assert(ranks(views, ranked@));
    }
    let mut out: Vec<RankedProc> = Vec::new();
    let mut k: usize = 0;
    while k < ranked.len() && k < n
        invariant
            k <= ranked.len(),
            k <= n,
            order::arranges(ranked@, kept@.len()),
            views == ranked_views(kept@),
            ranked_views(out@) == order::arranged(views, ranked@).take(k as int),
        decreases ranked.len() - k,
    {
        let at: usize = ranked[k];
        let p = kept[at].clone();
        let ghost prev = out@;
        out.push(p);
        proof {
            assert(ranked_views(out@) =~= ranked_views(prev).push(p@));
            assert(order::arranged(views, ranked@)[k as int] == views[at as int]);
            assert(ranked_views(out@) =~= order::arranged(views, ranked@).take(k + 1));
        }
        k += 1;
    }
    out
}

/// A command line reads byte for byte: what separates its arguments is a blank,
/// one separator at the end is dropped, and the rest stays.
pub proof fn a_command_line_reads_byte_for_byte(raw: Seq<u8>, i: int)
    requires
        0 <= i < raw.len(),
    ensures
        cmdline_text(raw).len() == (if raw.last() == 0 {
            raw.len() - 1
        } else {
            raw.len() as int
        }),
        i < cmdline_text(raw).len() && raw[i] == 0 ==> cmdline_text(raw)[i] == ' ',
        i < cmdline_text(raw).len() && raw[i] != 0 ==> cmdline_text(raw)[i] as u32 == raw[i],
{
}

/// What is ranked are those of a megabyte or more, and all of them.
pub proof fn what_is_ranked_has_weight(v: Seq<RankedView>, x: RankedView)
    ensures
        weighty(v).contains(x) <==> v.contains(x) && x.rss_kb >= 1024,
{
    let keep = |p: RankedView| p.rss_kb >= NOISE_KB;
    lemma_filter_holds(v, keep, x);
}

/// The top holds as many as asked for where there are so many, the largest first,
/// and nothing is left out that is larger than anything it holds.
pub proof fn nothing_larger_is_left_out(all: Seq<RankedView>, n: nat, top: Seq<RankedView>)
    requires
        is_top(all, n, top),
    ensures
        top.len() == (if n < all.len() {
            n
        } else {
            all.len()
        }),
        forall|i: int, j: int|
            0 <= i < j < top.len() ==> (#[trigger] top[i]).rss_kb >= (#[trigger] top[j]).rss_kb,
        forall|i: int| 0 <= i < top.len() ==> all.contains(#[trigger] top[i]),
        forall|x: RankedView, i: int|
            all.contains(x) && !top.contains(x) && 0 <= i < top.len() ==> #[trigger] top[i].rss_kb
                >= (#[trigger] x.rss_kb),
{
    let r = choose|r: Seq<usize>| #[trigger] ranks(all, r) && top == order::arranged(all, r).take(
        if n < all.len() {
            n as int
        } else {
            all.len() as int
        },
    );
    assert forall|i: int| 0 <= i < top.len() implies all.contains(#[trigger] top[i]) by {
        assert(top[i] == all[r[i] as int]);
    }
    assert forall|i: int, j: int| 0 <= i < j < top.len() implies (#[trigger] top[i]).rss_kb >= (
    #[trigger] top[j]).rss_kb by {
        assert(top[i] == all[r[i] as int] && top[j] == all[r[j] as int]);
    }
    assert forall|x: RankedView, i: int|
        all.contains(x) && !top.contains(x) && 0 <= i < top.len() implies #[trigger] top[i].rss_kb
        >= (#[trigger] x.rss_kb) by {
        let k = choose|k: int| 0 <= k < all.len() && all[k] == x;
        let p = order::nothing_is_left_out(r, all.len(), k);
        if p < top.len() {
            assert(top[p] == all[r[p] as int]);
        }
        assert(all[r[i] as int].rss_kb >= all[r[p] as int].rss_kb);
    }
}

/// A size that is there counts in full, and one that is not counts for nothing.
pub proof fn what_is_gone_counts_for_nothing(sizes: Seq<Option<u64>>, n: int)
    requires
        0 <= n < sizes.len(),
    ensures
        sizes[n] matches Some(k) ==> present_sum(sizes, n + 1) == present_sum(sizes, n) + k,
        sizes[n] is None ==> present_sum(sizes, n + 1) == present_sum(sizes, n),
        present_sum(sizes, 0) == 0,
{
}

proof fn lemma_filter_holds(v: Seq<RankedView>, keep: spec_fn(RankedView) -> bool, x: RankedView)
    ensures
        v.filter(keep).contains(x) <==> v.contains(x) && keep(x),
    decreases v.len(),
{
    reveal(Seq::filter);
    let f = v.filter(keep);
    if v.len() > 0 {
        let d = v.drop_last();
        let g = d.filter(keep);
        lemma_filter_holds(d, keep, x);
        if f.contains(x) {
            let i = choose|i: int| 0 <= i < f.len() && f[i] == x;
            if i < g.len() {
                assert(g[i] == x);
                let j = choose|j: int| 0 <= j < d.len() && d[j] == x;
                assert(v[j] == x);
            } else {
                assert(v[v.len() - 1] == x);
            }
        }
        if v.contains(x) && keep(x) {
            let j = choose|j: int| 0 <= j < v.len() && v[j] == x;
            if j < d.len() {
                assert(d[j] == x);
                let i = choose|i: int| 0 <= i < g.len() && g[i] == x;
                assert(f[i] == x);
            } else {
                assert(f[f.len() - 1] == x);
            }
        }
    }
}

} // verus!
