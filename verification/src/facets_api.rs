//! What facet control decides.
//!
//! Starting a facet runs an operator-configured command, which is close enough
//! to arbitrary execution that it sits alongside files and terminals.
//!
//! Stopping prefers `cgroup.kill`: atomic across the whole tree, so a workload
//! that forked workers dies in one operation with nothing orphaned. That is also
//! why facets exist rather than Prism tracking pids.

use crate::api::{Refused, RefusedView};
use crate::config::{Facet, FacetLimits, FacetView, LimitsView};
use crate::gate;
use crate::gate::{GateOutcome, Probe};
use crate::supervisor;
use crate::supervisor::{FacetStatus, StatusView, Supervisor};
use crate::term_api;
use crate::text;
use vstd::prelude::*;

verus! {

/// What is told of a facet.
#[derive(Debug)]
pub struct FacetShown {
    pub id: String,
    pub name: String,
    /// "running" | "stopped" | "foreign" | "failed"
    pub state: &'static str,
    pub detail: Option<String>,
    pub command: String,
    pub memory_mib: Option<u64>,
    pub swap_mib: Option<u64>,
    pub limits: FacetLimits,
    /// True when starting this facet opens a Terminal window rather than
    /// running headless.
    pub pty: bool,
    /// False when the facet's capability gate is unmet on this host — a profile
    /// authored elsewhere may name workloads that do not exist here.
    pub available: bool,
    pub unavailable_because: Option<String>,
}

pub struct ShownView {
    pub id: Seq<char>,
    pub name: Seq<char>,
    pub state: Seq<char>,
    pub detail: Option<Seq<char>>,
    pub command: Seq<char>,
    pub memory_mib: Option<u64>,
    pub swap_mib: Option<u64>,
    pub limits: LimitsView,
    pub pty: bool,
    pub available: bool,
    pub unavailable_because: Option<Seq<char>>,
}

impl View for FacetShown {
    type V = ShownView;

    open spec fn view(&self) -> ShownView {
        ShownView {
            id: self.id@,
            name: self.name@,
            state: self.state@,
            detail: text::opt(self.detail),
            command: self.command@,
            memory_mib: self.memory_mib,
            swap_mib: self.swap_mib,
            limits: self.limits@,
            pty: self.pty,
            available: self.available,
            unavailable_because: text::opt(self.unavailable_because),
        }
    }
}

pub open spec fn state_name(s: StatusView) -> Seq<char> {
    match s {
        StatusView::Running => "running"@,
        StatusView::Stopped => "stopped"@,
        StatusView::Foreign => "foreign"@,
        StatusView::Failed(_) => "failed"@,
    }
}

/// A charge in mebibytes. Only meaningful while running: a stopped facet has no
/// cgroup, and zero would look like a running workload using nothing.
pub open spec fn while_running(s: StatusView, kb: Option<u64>) -> Option<u64> {
    match (s, kb) {
        (StatusView::Running, Some(n)) => Some(n / 1024),
        _ => None,
    }
}

/// What is told of a facet.
pub open spec fn shown(
    f: FacetView,
    s: StatusView,
    memory_kb: Option<u64>,
    swap_kb: Option<u64>,
    host: Probe,
) -> ShownView {
    ShownView {
        id: f.id,
        name: f.name,
        state: state_name(s),
        detail: match s {
            StatusView::Failed(why) => Some(why),
            _ => None,
        },
        command: text::join(f.command, " "@),
        memory_mib: while_running(s, memory_kb),
        swap_mib: while_running(s, swap_kb),
        limits: f.limits,
        pty: f.pty,
        available: gate::blocked_by(f.enabled_if, host) is None,
        unavailable_because: gate::blocked_by(f.enabled_if, host),
    }
}

/// What is told of a facet, given its state and its charges.
pub fn view(
    facet: &Facet,
    status: &FacetStatus,
    memory_kb: Option<u64>,
    swap_kb: Option<u64>,
    host: Probe,
) -> (r: FacetShown)
    ensures
        r@ == shown(facet@, status@, memory_kb, swap_kb, host),
{
    let (state, detail, running) = match status {
        FacetStatus::Running => ("running", None, true),
        FacetStatus::Stopped => ("stopped", None, false),
        FacetStatus::Foreign => ("foreign", None, false),
        FacetStatus::Failed(why) => ("failed", Some(why.clone()), false),
    };
    let (available, because) = match facet.enabled_if.evaluate(host) {
        GateOutcome::Satisfied => (true, None),
        GateOutcome::Blocked(why) => (false, Some(why)),
    };
    FacetShown {
        id: facet.id.clone(),
        name: facet.name.clone(),
        state,
        detail,
        command: text::join_strs(&facet.command, " "),
        memory_mib: match memory_kb {
            Some(kb) => if running {
                Some(kb / 1024)
            } else {
                None
            },
            None => None,
        },
        swap_mib: match swap_kb {
            Some(kb) => if running {
                Some(kb / 1024)
            } else {
                None
            },
            None => None,
        },
        limits: facet.limits.clone(),
        pty: facet.pty,
        available,
        unavailable_because: because,
    }
}

/// How a request for a facet that is not there is refused.
pub fn missing() -> (r: Refused)
    ensures
        r@ == no_facet(),
        r@.status == 404,
        r@.error == "no_facet"@,
        r@.detail == "no such facet"@,
{
    Refused { status: 404, error: "no_facet", detail: "no such facet".to_string() }
}

pub open spec fn no_facet() -> RefusedView {
    RefusedView { status: 404, error: "no_facet"@, detail: "no such facet"@ }
}

/// What is done to start a facet.
#[derive(Debug)]
pub enum Start {
    Refused(Refused),
    /// An interactive launcher becomes a terminal session rather than a headless
    /// unit, so its prompts can actually be answered. Same containment either
    /// way — a session is a scope too.
    Terminal,
    /// A command line to run.
    Unit(Vec<String>),
}

pub enum StartView {
    Refused(RefusedView),
    Terminal,
    Unit(Seq<Seq<char>>),
}

impl View for Start {
    type V = StartView;

    open spec fn view(&self) -> StartView {
        match *self {
            Start::Refused(r) => StartView::Refused(r@),
            Start::Terminal => StartView::Terminal,
            Start::Unit(argv) => StartView::Unit(text::strs(argv@)),
        }
    }
}

/// What is done to start a facet: nothing where its gate is unmet, where the
/// machine is failing — starting a heavy workload then is how machines are
/// lost — or where it already runs.
pub open spec fn started(f: FacetView, host: Probe, tier: Seq<char>, s: StatusView) -> StartView {
    match gate::blocked_by(f.enabled_if, host) {
        Some(why) => StartView::Refused(
            RefusedView { status: 412, error: "unavailable"@, detail: why },
        ),
        None => if !term_api::calm(tier) {
            StartView::Refused(
                RefusedView {
                    status: 503,
                    error: "degraded"@,
                    detail:
                        "the machine is under memory pressure; refusing to start a workload"@,
                },
            )
        } else if f.pty {
            StartView::Terminal
        } else if s is Running {
            StartView::Refused(
                RefusedView {
                    status: 409,
                    error: "already_running"@,
                    detail: "already running"@,
                },
            )
        } else {
            StartView::Unit(supervisor::launch(f))
        },
    }
}

/// Decide how a facet is started, if it is.
pub fn start(facet: &Facet, host: Probe, tier: &str, status: &FacetStatus) -> (r: Start)
    ensures
        r@ == started(facet@, host, tier@, status@),
{
    match facet.enabled_if.evaluate(host) {
        GateOutcome::Blocked(why) => {
            return Start::Refused(Refused { status: 412, error: "unavailable", detail: why });
        },
        GateOutcome::Satisfied => {},
    }
    if !term_api::tier_allows_new_session(tier) {
        return Start::Refused(
            Refused {
                status: 503,
                error: "degraded",
                detail:
                    "the machine is under memory pressure; refusing to start a workload".to_string(),
            },
        );
    }
    if facet.pty {
        return Start::Terminal;
    }
    match status {
        FacetStatus::Running => Start::Refused(
            Refused {
                status: 409,
                error: "already_running",
                detail: "already running".to_string(),
            },
        ),
        _ => Start::Unit(Supervisor::new().start(facet)),
    }
}

/// A failing machine starts nothing, and a blocked facet is never started.
pub proof fn nothing_starts_under_pressure(f: FacetView, host: Probe, tier: Seq<char>, s: StatusView)
    ensures
        !term_api::calm(tier) ==> started(f, host, tier, s) is Refused,
        gate::blocked_by(f.enabled_if, host) is Some ==> started(f, host, tier, s) is Refused,
        started(f, host, tier, s) is Unit ==> !(s is Running) && !f.pty,
{
}

/// A facet that does not run is told to use nothing, rather than zero.
pub proof fn a_stopped_facet_reports_no_memory(
    f: FacetView,
    s: StatusView,
    memory_kb: Option<u64>,
    swap_kb: Option<u64>,
    host: Probe,
)
    requires
        !(s is Running),
    ensures
        shown(f, s, memory_kb, swap_kb, host).memory_mib is None,
        shown(f, s, memory_kb, swap_kb, host).swap_mib is None,
{
}

/// How a facet is started, by the tier's name. What the host lacks goes first;
/// then nothing starts on a red or black machine. A facet with a terminal gets
/// one; another that already runs is not started twice, and one that does not is
/// launched as a unit of its own, also where something foreign serves in its
/// place or it has failed before.
pub proof fn how_a_facet_is_started(f: FacetView, host: Probe, s: StatusView, tier: Seq<char>)
    requires
        tier == "green"@ || tier == "amber"@,
    ensures
        ({
            let met = gate::blocked_by(f.enabled_if, host) is None;
            &&& met && f.pty ==> started(f, host, tier, s) == StartView::Terminal
            &&& met && !f.pty && s is Running ==> (started(f, host, tier, s) matches
                StartView::Refused(r) && r.status == 409 && r.error == "already_running"@)
            &&& met && !f.pty && !(s is Running) ==> started(f, host, tier, s) == StartView::Unit(
                supervisor::launch(f),
            )
            &&& gate::blocked_by(f.enabled_if, host) matches Some(why) ==> (started(
                f,
                host,
                tier,
                s,
            ) matches StartView::Refused(r) && r.status == 412 && r.error == "unavailable"@
                && r.detail == why)
            &&& met ==> (started(f, host, "red"@, s) matches StartView::Refused(r) && r.status == 503
                && r.error == "degraded"@)
            &&& met ==> (started(f, host, "black"@, s) matches StartView::Refused(r) && r.status
                == 503 && r.error == "degraded"@)
        }),
{
    reveal_strlit("green");
    reveal_strlit("amber");
    reveal_strlit("red");
    reveal_strlit("black");
    assert("red"@.len() == 3 && "black"@.len() == 5 && "green"@.len() == 5 && "amber"@.len() == 5);
    assert("black"@[0] == 'b');
    assert("green"@[0] == 'g');
    assert("amber"@[0] == 'a');
}

/// What is told of a facet: its state by name, why where it failed, its charges
/// in mebibytes while it runs, and whether the host can run it at all.
pub proof fn a_facet_is_shown_as_it_is(
    f: FacetView,
    s: StatusView,
    memory_kb: u64,
    swap_kb: u64,
    host: Probe,
)
    ensures
        ({
            let v = shown(f, s, Some(memory_kb), Some(swap_kb), host);
            &&& v.id == f.id && v.name == f.name && v.limits == f.limits && v.pty == f.pty
            &&& v.command == text::join(f.command, " "@)
            &&& s is Running ==> v.state == "running"@ && v.memory_mib == Some(memory_kb / 1024)
                && v.swap_mib == Some(swap_kb / 1024)
            &&& s is Stopped ==> v.state == "stopped"@
            &&& s is Foreign ==> v.state == "foreign"@
            &&& s matches StatusView::Failed(why) ==> v.state == "failed"@ && v.detail == Some(why)
            &&& !(s is Failed) ==> v.detail is None
            &&& v.available <==> gate::blocked_by(f.enabled_if, host) is None
            &&& v.unavailable_because == gate::blocked_by(f.enabled_if, host)
            &&& shown(f, s, None, None, host).memory_mib is None
        }),
{
}

} // verus!
