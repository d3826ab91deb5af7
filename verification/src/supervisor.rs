//! Facet lifecycle via systemd transient units.
//!
//! Workloads are launched as transient *user* services (`systemd-run --user`),
//! which buys three things Prism would otherwise have to build badly:
//!
//! * **Atomic termination.** `cgroup.kill` ends the entire process tree in one
//!   write — no orphaned CUDA workers, no pid races, and critically no way for
//!   the kill to escape the cgroup.
//! * **Live limits.** `MemoryHigh`/`MemoryMax`/`MemorySwapMax` can be changed on
//!   a running workload without restarting it.
//! * **Accounting.** Per-facet `memory.current` and `memory.pressure` give the
//!   governor real attribution instead of guesswork.
//!
//! The command lines are decided here, and what systemd answers is read here;
//! whoever holds the process table runs them.

use crate::config::{Facet, FacetLimits, FacetView, LimitsView};
use crate::sensors::gpu;
use crate::text;
use vstd::prelude::*;

verus! {

pub open spec fn unit(facet_id: Seq<char>) -> Seq<char> {
    "prism-"@ + facet_id + ".service"@
}

pub open spec fn scope(facet_id: Seq<char>) -> Seq<char> {
    "prism-facet-"@ + facet_id + ".scope"@
}

/// Unit name for a facet. Stable across restarts so a crashed daemon can find
/// its own workloads again on startup.
pub fn unit_name(facet_id: &str) -> (r: String)
    ensures
        r@ == unit(facet_id@),
{
    let mut out = "prism-".to_string();
    out.append(facet_id);
    out.append(".service");
    out
}

/// Scope name for a facet that runs on a terminal.
pub fn facet_scope_name(facet_id: &str) -> (r: String)
    ensures
        r@ == scope(facet_id@),
{
    let mut out = "prism-facet-".to_string();
    out.append(facet_id);
    out.append(".scope");
    out
}

#[derive(Debug, Clone, PartialEq, Eq)]
pub enum FacetStatus {
    /// No transient unit exists.
    Stopped,
    Running,
    /// Something Prism did not start is serving in the facet's place.
    Foreign,
    Failed(String),
}

/// Limits as systemd properties, those that are set.
pub open spec fn properties(l: LimitsView) -> Seq<Seq<char>> {
    let high = match l.memory_high {
        Some(v) => seq!["MemoryHigh="@ + v],
        None => seq![],
    };
    let max = match l.memory_max {
        Some(v) => seq!["MemoryMax="@ + v],
        None => seq![],
    };
    let swap = match l.swap_max {
        Some(v) => seq!["MemorySwapMax="@ + v],
        None => seq![],
    };
    high + max + swap
}

/// Render limits as systemd properties, omitting anything unset.
///
/// Unset means unlimited, deliberately. The operator routinely runs workloads
/// that consume nearly the whole machine, and a ceiling that truncates a
/// legitimate job is a worse outcome than one that runs slowly.
pub fn limit_properties(limits: &FacetLimits) -> (r: Vec<String>)
    ensures
        text::strs(r@) == properties(limits@),
{
    let mut out: Vec<String> = Vec::new();
    let ghost l = limits@;
    match &limits.memory_high {
        Some(v) => {
            let mut p = "MemoryHigh=".to_string();
            p.append(v.as_str());
            out.push(p);
            assert(text::strs(out@) =~= seq!["MemoryHigh="@ + v@]);
        },
        None => {
            assert(text::strs(out@) =~= seq![]);
        },
    }
    let ghost one = text::strs(out@);
    match &limits.memory_max {
        Some(v) => {
            let mut p = "MemoryMax=".to_string();
            p.append(v.as_str());
            out.push(p);
            assert(text::strs(out@) =~= one + seq!["MemoryMax="@ + v@]);
        },
        None => {
            assert(text::strs(out@) =~= one + Seq::<Seq<char>>::empty());
        },
    }
    let ghost two = text::strs(out@);
    match &limits.swap_max {
        Some(v) => {
            let mut p = "MemorySwapMax=".to_string();
            p.append(v.as_str());
            out.push(p);
            assert(text::strs(out@) =~= two + seq!["MemorySwapMax="@ + v@]);
        },
        None => {
            assert(text::strs(out@) =~= two + Seq::<Seq<char>>::empty());
        },
    }
    out
}

/// What stands before the separator: how systemd is to run the facet.
pub open spec fn launch_options(f: FacetView) -> Seq<Seq<char>> {
    seq![
        "systemd-run"@,
        "--user"@,
        "--unit="@ + unit(f.id),
        "--collect"@,
        "--description=Prism facet: "@ + f.name,
    ] + (match f.cwd {
        Some(d) => seq!["--working-directory="@ + d],
        None => seq![],
    }) + properties(f.limits).map_values(|p: Seq<char>| "--property="@ + p)
        + seq!["--property=MemoryAccounting=yes"@]
}

/// The whole command line: the options, the separator, and the facet's command.
pub open spec fn launch(f: FacetView) -> Seq<Seq<char>> {
    launch_options(f) + seq!["--"@] + f.command
}

/// Build the `systemd-run` argument vector for a facet.
pub fn launch_argv(facet: &Facet) -> (r: Vec<String>)
    ensures
        text::strs(r@) == launch(facet@),
{
    let mut argv: Vec<String> = Vec::new();
    argv.push("systemd-run".to_string());
    argv.push("--user".to_string());
    let mut named = "--unit=".to_string();
    let own = unit_name(facet.id.as_str());
    named.append(own.as_str());
    argv.push(named);
    // Collect on failure so a crashed facet does not linger as a failed unit
    // blocking the next start with the same name.
    argv.push("--collect".to_string());
    let mut about = "--description=Prism facet: ".to_string();
    about.append(facet.name.as_str());
    argv.push(about);
    let ghost head = seq![
        "systemd-run"@,
        "--user"@,
        "--unit="@ + unit(facet.id@),
        "--collect"@,
        "--description=Prism facet: "@ + facet.name@,
    ];
    assert(text::strs(argv@) =~= head);
    match &facet.cwd {
        Some(cwd) => {
            let mut d = "--working-directory=".to_string();
            d.append(cwd.as_str());
            argv.push(d);
            assert(text::strs(argv@) =~= head + seq!["--working-directory="@ + cwd@]);
        },
        None => {
            assert(text::strs(argv@) =~= head + Seq::<Seq<char>>::empty());
        },
    }
    let ghost placed = text::strs(argv@);
    let properties = limit_properties(&facet.limits);
    let ghost set = |p: Seq<char>| "--property="@ + p;
    let mut i: usize = 0;
    assert(text::strs(properties@).take(0).map_values(set) =~= seq![]);
    while i < properties.len()
        invariant
            i <= properties.len(),
            set == (|p: Seq<char>| "--property="@ + p),
            text::strs(argv@) =~= placed + text::strs(properties@).take(i as int).map_values(set),
        decreases properties.len() - i,
    {
        let mut p = "--property=".to_string();
        p.append(properties[i].as_str());
        proof {
            text::lemma_strs_push(argv@, p);
            assert(text::strs(properties@)[i as int] == properties@[i as int]@);
            assert(text::strs(properties@).take(i + 1) =~= text::strs(properties@).take(
                i as int,
            ).push(properties@[i as int]@));
        }
        argv.push(p);
        i += 1;
    }
    assert(text::strs(properties@).take(i as int) =~= text::strs(properties@));
    // Accounting must be explicit; without it memory.current reads zero and the
    // governor silently attributes nothing.
    let ghost limited = text::strs(argv@);
    argv.push("--property=MemoryAccounting=yes".to_string());
    argv.push("--".to_string());
    assert(text::strs(argv@) =~= limited + seq!["--property=MemoryAccounting=yes"@] + seq!["--"@]);
    let ghost options = text::strs(argv@);
    let mut k: usize = 0;
    while k < facet.command.len()
        invariant
            k <= facet.command@.len(),
            text::strs(argv@) =~= options + text::strs(facet.command@).take(k as int),
        decreases facet.command@.len() - k,
    {
        let word = facet.command[k].clone();
        proof {
            text::lemma_strs_push(argv@, word);
            assert(text::strs(facet.command@)[k as int] == word@);
        }
        argv.push(word);
        k += 1;
    }
    assert(text::strs(facet.command@).take(k as int) =~= text::strs(facet.command@));
    argv
}

pub struct Supervisor;

/// The arguments to `systemctl --user` that stop a facet politely.
pub open spec fn stop_words(facet_id: Seq<char>) -> Seq<Seq<char>> {
    seq!["stop"@, unit(facet_id)]
}

/// The arguments to `systemctl --user` that change a running facet's limits.
pub open spec fn limit_words(facet_id: Seq<char>, l: LimitsView) -> Seq<Seq<char>> {
    seq!["set-property"@, "--runtime"@, unit(facet_id)] + properties(l)
}

/// What `systemctl show -p ActiveState --value` says of a unit.
pub open spec fn status_text(answer: Option<Seq<char>>) -> StatusView {
    match answer {
        None => StatusView::Stopped,
        Some(a) => {
            let s = text::trim(a);
            if s == "active"@ || s == "activating"@ {
                StatusView::Running
            } else if s == "failed"@ {
                StatusView::Failed("unit failed"@)
            } else {
                StatusView::Stopped
            }
        },
    }
}

pub enum StatusView {
    Stopped,
    Running,
    Foreign,
    Failed(Seq<char>),
}

impl View for FacetStatus {
    type V = StatusView;

    open spec fn view(&self) -> StatusView {
        match *self {
            FacetStatus::Stopped => StatusView::Stopped,
            FacetStatus::Running => StatusView::Running,
            FacetStatus::Foreign => StatusView::Foreign,
            FacetStatus::Failed(why) => StatusView::Failed(why@),
        }
    }
}

/// The directory of a control group, from what systemd answers; none where it
/// names none.
pub open spec fn cgroup_dir(answer: Seq<char>) -> Option<Seq<char>> {
    let s = text::trim(answer);
    if s.len() == 0 || s == "/"@ {
        None
    } else {
        Some(text::under("/sys/fs/cgroup"@, text::unslashed(s)))
    }
}

/// The kilobytes of a number of bytes that a cgroup file holds.
pub open spec fn kilobytes(raw: Seq<char>) -> Option<nat> {
    match text::number(text::trim(raw), u64::MAX as nat) {
        Some(b) => Some(b / 1024),
        None => None,
    }
}

pub open spec fn charge(kb: Option<u64>) -> Option<nat> {
    match kb {
        Some(n) => Some(n as nat),
        None => None,
    }
}

fn in_kilobytes(raw: &str) -> (r: Option<u64>)
    ensures
        charge(r) == kilobytes(raw@),
{
    match text::parse_u64(text::trim_str(raw).as_str()) {
        Some(b) => Some(b / 1024),
        None => None,
    }
}

impl Supervisor {
    pub fn new() -> Self {
        Supervisor
    }

    /// Start a facet: the whole command line, the program first.
    pub fn start(&self, facet: &Facet) -> (r: Vec<String>)
        ensures
            text::strs(r@) == launch(facet@),
            r@.len() > 0,
    {
        let argv = launch_argv(facet);
        assert(text::strs(argv@).len() == argv@.len());
        argv
    }

    /// Terminate a facet's entire process tree atomically: the file to write
    /// `1` to, below the cgroup that systemd answers with. None where there is
    /// no cgroup, so that the facet is not running.
    ///
    /// A write to `cgroup.kill` sends SIGKILL to every member in one operation.
    /// This cannot escape the cgroup, cannot race a forking child, and cannot be
    /// mis-aimed by an arithmetic error — which is exactly why it is preferred
    /// over signalling pids.
    pub fn kill(&self, answer: &str) -> (r: Option<String>)
        ensures
            text::opt(r) == (match cgroup_dir(answer@) {
                Some(dir) => Some(text::under(dir, "cgroup.kill"@)),
                None => None,
            }),
    {
        match self.cgroup_path(answer) {
            Some(dir) => Some(text::join_path(dir.as_str(), "cgroup.kill")),
            None => None,
        }
    }

    /// Ask a facet to stop politely, letting it run its own shutdown: the
    /// arguments for `systemctl --user`.
    pub fn stop(&self, facet_id: &str) -> (r: Vec<String>)
        ensures
            text::strs(r@) == stop_words(facet_id@),
    {
        let mut out: Vec<String> = Vec::new();
        out.push("stop".to_string());
        out.push(unit_name(facet_id));
        assert(text::strs(out@) =~= stop_words(facet_id@));
        out
    }

    /// Change limits on a *running* facet, without restarting it: the arguments
    /// for `systemctl --user`, and none where no limit is set.
    ///
    /// `--runtime` keeps the change transient, so a restart returns to the
    /// configured baseline rather than silently inheriting whatever was last
    /// dragged on a slider.
    pub fn set_limits(&self, facet_id: &str, limits: &FacetLimits) -> (r: Option<Vec<String>>)
        ensures
            r is None <==> properties(limits@).len() == 0,
            r matches Some(v) ==> text::strs(v@) == limit_words(facet_id@, limits@),
    {
        let mut properties = limit_properties(limits);
        let ghost set = text::strs(properties@);
        assert(set.len() == properties@.len());
        if properties.len() == 0 {
            return None;
        }
        let mut out: Vec<String> = Vec::new();
        out.push("set-property".to_string());
        out.push("--runtime".to_string());
        out.push(unit_name(facet_id));
        let ghost head = text::strs(out@);
        assert(head =~= seq!["set-property"@, "--runtime"@, unit(facet_id@)]);
        out.append(&mut properties);
        assert(text::strs(out@) =~= head + set);
        Some(out)
    }

    /// A unit's state, from the answer of systemd to what it is; `None` where
    /// systemd could not be asked.
    pub fn status(&self, answer: Option<&str>) -> (r: FacetStatus)
        ensures
            r@ == status_text(
                match answer {
                    Some(a) => Some(a@),
                    None => None,
                },
            ),
    {
        match answer {
            None => FacetStatus::Stopped,
            Some(a) => {
                let s = text::trim_str(a);
                if text::same(s.as_str(), "active") || text::same(s.as_str(), "activating") {
                    FacetStatus::Running
                } else if text::same(s.as_str(), "failed") {
                    FacetStatus::Failed("unit failed".to_string())
                } else {
                    FacetStatus::Stopped
                }
            },
        }
    }

    /// Current memory charge for a facet in kB, from its `memory.current`.
    pub fn memory_current_kb(&self, raw: &str) -> (r: Option<u64>)
        ensures
            charge(r) == kilobytes(raw@),
    {
        in_kilobytes(raw)
    }

    /// Current swap charge for a facet in kB, from its `memory.swap.current`.
    ///
    /// Tracked separately from RAM because swap is the axis the spiral runs
    /// along: a facet with high RAM and no swap is working, whereas one pushing
    /// steadily into swap is on its way to taking the machine down.
    pub fn memory_swap_kb(&self, raw: &str) -> (r: Option<u64>)
        ensures
            charge(r) == kilobytes(raw@),
    {
        in_kilobytes(raw)
    }

    /// Where a facet's cgroup is, from what systemd answers, rather than
    /// assuming a hierarchy layout that differs between distributions.
    pub fn cgroup_path(&self, answer: &str) -> (r: Option<String>)
        ensures
            text::opt(r) == cgroup_dir(answer@),
    {
        let s = text::trim_str(answer);
        if s.as_str().is_empty() || text::same(s.as_str(), "/") {
            return None;
        }
        let rest = text::trim_slashes(s.as_str());
        Some(text::join_path("/sys/fs/cgroup", rest.as_str()))
    }
}

// ---------------------------------------------------------------------------
// Laws
// ---------------------------------------------------------------------------

/// What systemd-run is told and what the workload is told are kept apart: the
/// command stands whole after the first separator, and every option before it.
pub proof fn the_command_follows_the_separator(f: FacetView)
    ensures
        launch(f).take(launch_options(f).len() as int) == launch_options(f),
        launch(f)[launch_options(f).len() as int] == "--"@,
        launch(f).skip(launch_options(f).len() as int + 1) == f.command,
{
    let n = launch_options(f).len() as int;
    assert(launch(f).take(n) =~= launch_options(f));
    assert(launch(f).skip(n + 1) =~= f.command);
}

/// No option is the separator, so the first separator is the one before the
/// command.
pub proof fn no_option_is_the_separator(f: FacetView, i: int)
    requires
        0 <= i < launch_options(f).len(),
    ensures
        launch_options(f)[i] != "--"@,
{
    reveal_strlit("--");
    reveal_strlit("systemd-run");
    reveal_strlit("--user");
    reveal_strlit("--unit=");
    reveal_strlit("--collect");
    reveal_strlit("--description=Prism facet: ");
    reveal_strlit("--working-directory=");
    reveal_strlit("--property=");
    reveal_strlit("--property=MemoryAccounting=yes");
    let o = launch_options(f);
    assert(o[i].len() > 2);
}

/// A facet's cgroup names the facet: both unit names lead back to the id.
pub proof fn unit_names_lead_back(id: Seq<char>)
    ensures
        gpu::segment_owner(unit(id)) == Some(id),
        gpu::segment_owner(scope(id)) == Some(id),
{
    reveal_strlit("prism-");
    reveal_strlit(".service");
    reveal_strlit("prism-facet-");
    reveal_strlit(".scope");
    let u = unit(id);
    let n = u.len() as int;
    assert(u.subrange(0, 6) =~= "prism-"@);
    let rest = u.skip(6);
    assert(rest.subrange(rest.len() - 8, rest.len() as int) =~= ".service"@);
    assert(rest.take(rest.len() - 8) =~= id);
    // A service is no scope: it does not end as one.
    if text::starts(u, "prism-facet-"@) {
        let r = u.skip(12);
        if text::ends(r, ".scope"@) {
            assert(r.subrange(r.len() - 6, r.len() as int)[0] == u[n - 6]);
            assert(u[n - 6] == ".service"@[2]);
            assert(false);
        }
    }
    let s = scope(id);
    assert(s.subrange(0, 12) =~= "prism-facet-"@);
    let t = s.skip(12);
    assert(t.subrange(t.len() - 6, t.len() as int) =~= ".scope"@);
    assert(t.take(t.len() - 6) =~= id);
}

/// Different facets have different units.
pub proof fn unit_names_are_distinct(a: Seq<char>, b: Seq<char>)
    requires
        unit(a) == unit(b) || scope(a) == scope(b),
    ensures
        a == b,
{
    unit_names_lead_back(a);
    unit_names_lead_back(b);
}

/// A limit that is not set is not mentioned.
pub proof fn unset_limits_are_not_mentioned(l: LimitsView)
    ensures
        l.memory_high is None && l.memory_max is None && l.swap_max is None ==> properties(l).len()
            == 0,
        properties(l).len() == (if l.memory_high is Some {
            1int
        } else {
            0
        }) + (if l.memory_max is Some {
            1int
        } else {
            0
        }) + (if l.swap_max is Some {
            1int
        } else {
            0
        }),
{
}

/// What a facet is launched with, in full: a unit of its own that is collected
/// once it ends, told apart by its name, started where it is said to, under the
/// limits that are set, and accounted for.
pub proof fn what_a_facet_is_launched_with(
    f: FacetView,
    dir: Seq<char>,
    high: Seq<char>,
    max: Seq<char>,
    swap: Seq<char>,
)
    ensures
        ({
            let start = seq![
                "systemd-run"@,
                "--user"@,
                "--unit="@ + ("prism-"@ + f.id + ".service"@),
                "--collect"@,
                "--description=Prism facet: "@ + f.name,
            ];
            let end = seq!["--property=MemoryAccounting=yes"@, "--"@];
            let bare = LimitsView { memory_high: None, memory_max: None, swap_max: None };
            let full = LimitsView {
                memory_high: Some(high),
                memory_max: Some(max),
                swap_max: Some(swap),
            };
            let set = seq![
                "--property="@ + ("MemoryHigh="@ + high),
                "--property="@ + ("MemoryMax="@ + max),
                "--property="@ + ("MemorySwapMax="@ + swap),
            ];
            &&& launch(FacetView { cwd: None, limits: bare, ..f }) == start + end + f.command
            &&& launch(FacetView { cwd: Some(dir), limits: bare, ..f }) == start + seq![
                "--working-directory="@ + dir,
            ] + end + f.command
            &&& launch(FacetView { cwd: None, limits: full, ..f }) == start + set + end + f.command
            &&& launch(FacetView { cwd: Some(dir), limits: full, ..f }) == start + seq![
                "--working-directory="@ + dir,
            ] + set + end + f.command
        }),
{
    let bare = LimitsView { memory_high: None, memory_max: None, swap_max: None };
    let full = LimitsView { memory_high: Some(high), memory_max: Some(max), swap_max: Some(swap) };
    let p = |x: Seq<char>| "--property="@ + x;
    assert(properties(bare) =~= Seq::<Seq<char>>::empty());
    assert(properties(full) =~= seq![
        "MemoryHigh="@ + high,
        "MemoryMax="@ + max,
        "MemorySwapMax="@ + swap,
    ]);
    assert(properties(bare).map_values(p) =~= Seq::<Seq<char>>::empty());
    let set = seq![
        "--property="@ + ("MemoryHigh="@ + high),
        "--property="@ + ("MemoryMax="@ + max),
        "--property="@ + ("MemorySwapMax="@ + swap),
    ];
    assert(properties(full).map_values(p) =~= set);
    lemma_launched(FacetView { cwd: None, limits: bare, ..f });
    lemma_launched(FacetView { cwd: Some(dir), limits: bare, ..f });
    lemma_launched(FacetView { cwd: None, limits: full, ..f });
    lemma_launched(FacetView { cwd: Some(dir), limits: full, ..f });
    let start = seq![
        "systemd-run"@,
        "--user"@,
        "--unit="@ + ("prism-"@ + f.id + ".service"@),
        "--collect"@,
        "--description=Prism facet: "@ + f.name,
    ];
    let none = Seq::<Seq<char>>::empty();
    let place = seq!["--working-directory="@ + dir];
    assert(start + none + none =~= start);
    assert(start + place + none =~= start + place);
    assert(start + none + set =~= start + set);
}

proof fn lemma_launched(f: FacetView)
    ensures
        ({
            let start = seq![
                "systemd-run"@,
                "--user"@,
                "--unit="@ + unit(f.id),
                "--collect"@,
                "--description=Prism facet: "@ + f.name,
            ];
            let place = match f.cwd {
                Some(d) => seq!["--working-directory="@ + d],
                None => seq![],
            };
            let set = properties(f.limits).map_values(|p: Seq<char>| "--property="@ + p);
            launch(f) == start + place + set + seq!["--property=MemoryAccounting=yes"@, "--"@]
                + f.command
        }),
{
    let a = seq!["--property=MemoryAccounting=yes"@];
    let b = seq!["--"@];
    assert(a + b =~= seq!["--property=MemoryAccounting=yes"@, "--"@]);
    let options = launch_options(f);
    assert(options + b + f.command =~= launch(f));
    assert(launch(f) =~= launch_options(f) + b + f.command);
    let place = match f.cwd {
        Some(d) => seq!["--working-directory="@ + d],
        None => seq![],
    };
    let set = properties(f.limits).map_values(|p: Seq<char>| "--property="@ + p);
    let start = seq![
        "systemd-run"@,
        "--user"@,
        "--unit="@ + unit(f.id),
        "--collect"@,
        "--description=Prism facet: "@ + f.name,
    ];
    assert(start + place + set + a + b =~= start + place + set + (a + b));
}

/// Each limit that is set is named with its value, and none that is not.
pub proof fn each_limit_is_named_with_its_value(l: LimitsView, v: Seq<char>)
    ensures
        l.memory_high == Some(v) ==> properties(l).contains("MemoryHigh="@ + v),
        l.memory_max == Some(v) ==> properties(l).contains("MemoryMax="@ + v),
        l.swap_max == Some(v) ==> properties(l).contains("MemorySwapMax="@ + v),
{
    let p = properties(l);
    if l.memory_high == Some(v) {
        assert(p[0] == "MemoryHigh="@ + v);
    }
    if l.memory_max == Some(v) {
        let i: int = if l.memory_high is Some {
            1
        } else {
            0
        };
        assert(p[i] == "MemoryMax="@ + v);
    }
    if l.swap_max == Some(v) {
        assert(p[p.len() - 1] == "MemorySwapMax="@ + v);
    }
}

/// What a facet is, from what the service manager answers: running while it is
/// active or about to be, failed where it says so, and stopped in every other
/// case, also where it does not answer.
pub proof fn a_facet_is_what_the_manager_says(answer: Seq<char>)
    ensures
        ({
            let word = text::trim(answer);
            let s = status_text(Some(answer));
            &&& s is Running <==> word == "active"@ || word == "activating"@
            &&& s is Failed <==> word == "failed"@
            &&& s is Stopped <==> word != "active"@ && word != "activating"@ && word != "failed"@
            &&& status_text(None) is Stopped
        }),
{
    reveal_strlit("active");
    reveal_strlit("activating");
    reveal_strlit("failed");
    assert("active"@.len() == 6 && "activating"@.len() == 10 && "failed"@.len() == 6);
    assert("active"@[0] == 'a' && "failed"@[0] == 'f');
}

/// A control group lies below the hierarchy; an answer that names none, or the
/// root, names nothing that could be killed or measured.
pub proof fn a_control_group_is_below_the_hierarchy(name: Seq<char>, blank: Seq<char>)
    requires
        name.len() > 0,
        name[0] != '/',
        !text::is_space(name.last()),
        forall|i: int| 0 <= i < blank.len() ==> text::is_space(#[trigger] blank[i]),
    ensures
        cgroup_dir("/"@ + name) == Some("/sys/fs/cgroup/"@ + name),
        cgroup_dir("/"@) is None,
        cgroup_dir(blank) is None,
{
    reveal_strlit("/");
    reveal_strlit("/sys/fs/cgroup");
    reveal_strlit("/sys/fs/cgroup/");
    let s = "/"@ + name;
    assert(s[0] == '/' && s.last() == name.last());
    text::lemma_trim_id(s);
    assert(s.skip(1) =~= name);
    assert(text::unslashed(s) == text::unslashed(s.skip(1)));
    assert(text::unslashed(name) == name);
    assert("/sys/fs/cgroup"@.last() == 'p');
    assert(text::under("/sys/fs/cgroup"@, name) =~= "/sys/fs/cgroup/"@ + name);
    if s == "/"@ {
        assert(s.len() == 1);
    }
    text::lemma_trim_id("/"@);
    text::lemma_lead(blank);
    text::lemma_lead_is(blank, blank.len() as int);
    assert(text::trim_start(blank) =~= Seq::<char>::empty());
}

/// A charge is a number of bytes, told in whole kilobytes; anything else is no
/// charge.
pub proof fn a_charge_is_in_bytes(n: u64, word: Seq<char>)
    requires
        text::number(text::trim(word), u64::MAX as nat) is None,
    ensures
        kilobytes(text::dec(n as nat)) == Some(n as nat / 1024),
        kilobytes(word) is None,
{
    let d = text::dec(n as nat);
    text::lemma_dec(n as nat);
    assert(text::is_digit(d[0]) && text::is_digit(d[d.len() - 1]));
    text::lemma_trim_id(d);
    text::lemma_number_dec(n as nat, u64::MAX as nat);
}

} // verus!
