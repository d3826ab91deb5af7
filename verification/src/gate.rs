//! Capability gates.
//!
//! Prism runs on machines that differ: a Hyprland desktop, a headless inference
//! box, a laptop with no GPU. Rather than detecting "which machine am I", every
//! watchdog and facet declares the capabilities it needs. Anything whose subject
//! is absent self-disables silently, so a profile authored on one host can be
//! dropped onto another and degrade gracefully instead of erroring.
//!
//! What the host has is handed in as a [`Probe`]; which files to look for to
//! fill one in is [`binary_candidates`].

use crate::text;
use vstd::prelude::*;

verus! {

/// Conditions that must *all* hold for the owning item to activate.
///
/// An empty gate is always satisfied, so `enabled_if` can be omitted entirely
/// for portable items.
#[derive(Debug)]
pub struct Gate {
    /// An executable of this name must exist on `PATH`.
    pub binary: Option<String>,
    /// This path must exist.
    pub path: Option<String>,
    /// A process with this exact name must be running.
    pub process: Option<String>,
    /// Explicit override; `false` disables regardless of everything else.
    pub enabled: Option<bool>,
}

/// What the host was found to have of the things that one gate asks for.
#[derive(Debug, Clone, Copy)]
pub struct Probe {
    pub binary: bool,
    pub path: bool,
    pub process: bool,
}

#[derive(Debug, Clone)]
pub enum GateOutcome {
    Satisfied,
    Blocked(String),
}

/// What a gate asks for.
pub struct GateView {
    pub binary: Option<Seq<char>>,
    pub path: Option<Seq<char>>,
    pub process: Option<Seq<char>>,
    pub enabled: Option<bool>,
}

impl View for Gate {
    type V = GateView;

    open spec fn view(&self) -> GateView {
        GateView {
            binary: text::opt(self.binary),
            path: text::opt(self.path),
            process: text::opt(self.process),
            enabled: self.enabled,
        }
    }
}

/// A gate that asks for nothing.
pub open spec fn open_gate() -> GateView {
    GateView { binary: None, path: None, process: None, enabled: None }
}

/// Why a gate is blocked, or `None` where it is satisfied.
pub open spec fn blocked_by(g: GateView, host: Probe) -> Option<Seq<char>> {
    if g.enabled == Some(false) {
        Some("explicitly disabled"@)
    } else if g.binary is Some && !host.binary {
        Some("binary `"@ + g.binary->0 + "` not on PATH"@)
    } else if g.path is Some && !host.path {
        Some("path `"@ + g.path->0 + "` absent"@)
    } else if g.process is Some && !host.process {
        Some("process `"@ + g.process->0 + "` not running"@)
    } else {
        None
    }
}

impl Default for Gate {
    fn default() -> (r: Self)
        ensures
            r@ == open_gate(),
    {
        Gate { binary: None, path: None, process: None, enabled: None }
    }
}

impl Clone for Gate {
    fn clone(&self) -> (r: Self)
        ensures
            r@ == self@,
    {
        Gate {
            binary: text::copy_opt(&self.binary),
            path: text::copy_opt(&self.path),
            process: text::copy_opt(&self.process),
            enabled: self.enabled,
        }
    }
}

impl Gate {
    pub fn satisfied(&self, host: Probe) -> (r: bool)
        ensures
            r == (blocked_by(self@, host) is None),
    {
        self.evaluate(host).is_satisfied()
    }

    /// Evaluate it, retaining *why* it failed so the daemon can log a
    /// useful reason rather than silently doing nothing.
    pub fn evaluate(&self, host: Probe) -> (r: GateOutcome)
        ensures
            match r {
                GateOutcome::Satisfied => blocked_by(self@, host) is None,
                GateOutcome::Blocked(why) => blocked_by(self@, host) == Some(why@),
            },
    {
        match self.enabled {
            Some(on) => {
                if !on {
                    return GateOutcome::Blocked("explicitly disabled".to_string());
                }
            },
            None => {},
        }
        match &self.binary {
            Some(bin) => {
                if !host.binary {
                    let mut why = "binary `".to_string();
                    why.append(bin.as_str());
                    why.append("` not on PATH");
                    return GateOutcome::Blocked(why);
                }
            },
            None => {},
        }
        match &self.path {
            Some(path) => {
                if !host.path {
                    let mut why = "path `".to_string();
                    why.append(path.as_str());
                    why.append("` absent");
                    return GateOutcome::Blocked(why);
                }
            },
            None => {},
        }
        match &self.process {
            Some(name) => {
                if !host.process {
                    let mut why = "process `".to_string();
                    why.append(name.as_str());
                    why.append("` not running");
                    return GateOutcome::Blocked(why);
                }
            },
            None => {},
        }
        GateOutcome::Satisfied
    }
}

impl GateOutcome {
    pub fn is_satisfied(&self) -> (r: bool)
        ensures
            r == (*self is Satisfied),
    {
        match self {
            GateOutcome::Satisfied => true,
            GateOutcome::Blocked(_) => false,
        }
    }
}

/// The files any of which, being there, puts the binary `name` within reach: a
/// name with a slash is used as it stands, any other is looked for in each
/// directory of the search path that is not empty.
pub open spec fn candidates(name: Seq<char>, search: Option<Seq<char>>) -> Seq<Seq<char>> {
    if name.contains('/') {
        seq![name]
    } else {
        match search {
            None => seq![],
            Some(p) => text::split(p, ':').filter(|d: Seq<char>| d.len() > 0).map_values(
                |d: Seq<char>| text::under(d, name),
            ),
        }
    }
}

/// Which files to look for to learn whether a binary is within reach.
pub fn binary_candidates(name: &str, search: Option<&str>) -> (r: Vec<String>)
    ensures
        text::strs(r@) == candidates(
            name@,
            match search {
                Some(p) => Some(p@),
                None => None,
            },
        ),
{
    let mut out: Vec<String> = Vec::new();
    if text::contains_char(name, '/') {
        out.push(name.to_string());
        assert(text::strs(out@) =~= seq![name@]);
        return out;
    }
    match search {
        None => {
            assert(text::strs(out@) =~= seq![]);
            out
        },
        Some(p) => {
            let dirs = text::split_str(p, ':');
            let ghost keep = |d: Seq<char>| d.len() > 0;
            let ghost place = |d: Seq<char>| text::under(d, name@);
            let mut i: usize = 0;
            proof {
                text::lemma_filter_none(text::strs(dirs@), keep);
            }
            while i < dirs.len()
                invariant
                    i <= dirs.len(),
                    keep == (|d: Seq<char>| d.len() > 0),
                    place == (|d: Seq<char>| text::under(d, name@)),
                    text::strs(out@) =~= text::strs(dirs@).take(i as int).filter(keep).map_values(place),
                decreases dirs.len() - i,
            {
                proof {
                    text::lemma_filter_next(text::strs(dirs@), keep, i as int);
                }
                let d = text::chars_of(dirs[i].as_str());
                if d.len() > 0 {
                    let file = text::join_path(dirs[i].as_str(), name);
                    proof {
                        text::lemma_strs_push(out@, file);
                    }
                    out.push(file);
                }
                i += 1;
            }
            assert(text::strs(dirs@).take(i as int) =~= text::strs(dirs@));
            out
        },
    }
}

/// Whether a process of the given `comm` text is the one a gate asks for.
pub fn comm_is(comm: &str, name: &str) -> (r: bool)
    ensures
        r == (text::trim(comm@) == name@),
{
    text::same(text::trim_str(comm).as_str(), name)
}

/// Whether an entry of `/proc` is a process: all of its name is digits.
pub fn is_pid_name(name: &str) -> (r: bool)
    ensures
        r == text::all_digits(name@),
{
    let v = text::chars_of(name);
    let mut i: usize = 0;
    while i < v.len()
        invariant
            i <= v.len(),
            v@ == name@,
            forall|j: int| 0 <= j < i ==> text::is_digit(#[trigger] name@[j]),
        decreases v.len() - i,
    {
        if v[i] < '0' || v[i] > '9' {
            assert(!text::is_digit(name@[i as int]));
            return false;
        }
        i += 1;
    }
    true
}

/// A gate is open exactly where it is not switched off and the host has everything
/// that it asks for; one that asks for nothing is open everywhere.
pub proof fn a_gate_asks_for_all_it_names(g: GateView, host: Probe)
    ensures
        blocked_by(g, host) is None <==> {
            &&& g.enabled != Some(false)
            &&& g.binary is Some ==> host.binary
            &&& g.path is Some ==> host.path
            &&& g.process is Some ==> host.process
        },
        blocked_by(open_gate(), host) is None,
        g.enabled == Some(false) ==> blocked_by(g, host) == Some("explicitly disabled"@),
{
}

/// What a closed gate tells names what is missing, where that is the only thing.
pub proof fn a_closed_gate_names_what_is_missing(what: Seq<char>, host: Probe)
    ensures
        !host.binary ==> blocked_by((GateView { binary: Some(what), ..open_gate() }), host) == Some(
            "binary `"@ + what + "` not on PATH"@,
        ),
        !host.path ==> blocked_by((GateView { path: Some(what), ..open_gate() }), host) == Some(
            "path `"@ + what + "` absent"@,
        ),
        !host.process ==> blocked_by((GateView { process: Some(what), ..open_gate() }), host)
            == Some("process `"@ + what + "` not running"@),
{
}

/// A program with a slash in its name is looked for there and nowhere else; any
/// other in every directory of the search path, in order, and nowhere without one.
pub proof fn where_a_program_is_looked_for(name: Seq<char>, dir: Seq<char>, more: Seq<char>)
    requires
        !dir.contains(':'),
    ensures
        name.contains('/') ==> candidates(name, Some(more)) == seq![name] && candidates(name, None)
            == seq![name],
        !name.contains('/') ==> candidates(name, None).len() == 0,
        !name.contains('/') && dir.len() > 0 ==> candidates(name, Some(dir)) == seq![
            text::under(dir, name),
        ],
        !name.contains('/') && dir.len() > 0 ==> candidates(name, Some(dir + ":"@ + more)) == seq![
            text::under(dir, name),
        ] + candidates(name, Some(more)),
        !name.contains('/') ==> candidates(name, Some(":"@ + more)) == candidates(name, Some(more)),
{
    reveal_strlit(":");
    let f = |d: Seq<char>| d.len() > 0;
    let g = |d: Seq<char>| text::under(d, name);
    let none = Seq::<char>::empty();
    assert(dir + ":"@ + more =~= dir.push(':') + more);
    text::lemma_split_cons(dir, ':', more);
    text::lemma_split_one(dir, ':');
    assert(":"@ + more =~= none.push(':') + more);
    text::lemma_split_cons(none, ':', more);
    text::lemma_filter_cons(dir, text::split(more, ':'), f);
    text::lemma_filter_cons(none, text::split(more, ':'), f);
    text::lemma_filter_cons(dir, seq![], f);
    assert(seq![dir] + Seq::<Seq<char>>::empty() =~= seq![dir]);
    assert(Seq::<Seq<char>>::empty().filter(f).len() == 0) by {
        reveal(Seq::filter);
    }
    let tail = text::split(more, ':').filter(f);
    if dir.len() > 0 {
        assert((seq![dir] + tail).map_values(g) =~= seq![text::under(dir, name)] + tail.map_values(g));
        assert((seq![dir] + Seq::<Seq<char>>::empty().filter(f)).map_values(g) =~= seq![
            text::under(dir, name),
        ]);
    }
}

} // verus!
