//! First-run configuration.
//!
//! A new install must work without the operator writing configuration by hand.
//!
//! Everything here is a *detection with a default*, never a requirement. The
//! host is inspected for the things Prism can usefully manage, a configuration
//! is proposed, and the operator can edit it afterwards because it is their own
//! plain text rather than a hidden database.
//!
//! Nothing proposed here is fabricated: a facet is only proposed if its command
//! actually exists on this machine, and a root only if the directory is real.
//! Offering to launch something that is not installed is worse than offering
//! nothing.

use crate::config;
use crate::config::{
    BindMode, Facet, FacetLimits, FacetView, FileRoot, FileRootView, FilesConfig, GovernorConfig,
    HostConfig, LimitsView, Profile, ServerConfig, TerminalConfig,
};
use crate::gate;
use crate::gate::{Gate, GateView};
use crate::text;
use crate::watchdog::storm;
use vstd::prelude::*;

verus! {

/// The home directory, where `HOME` names none.
pub fn home_or_root(home: Option<&str>) -> (r: String)
    ensures
        r@ == (match home {
            Some(h) => h@,
            None => "/root"@,
        }),
{
    match home {
        Some(h) => h.to_string(),
        None => "/root".to_string(),
    }
}

/// Places worth looking at.
#[derive(Debug)]
pub struct Places {
    pub comfy_easy_output: String,
    pub comfy_output: String,
    pub a1111_output: String,
    pub downloads: String,
    pub documents: String,
    pub comfy_easy_script: String,
    pub comfy_main: String,
    pub llama_build: String,
    pub llama_build_new: String,
    pub llama_system: String,
}

/// Which of the [`Places`] are there, and whether `ollama` is on `PATH`.
#[derive(Debug, Clone, Copy)]
pub struct Found {
    pub comfy_easy_output: bool,
    pub comfy_output: bool,
    pub a1111_output: bool,
    pub downloads: bool,
    pub documents: bool,
    pub comfy_easy_script: bool,
    pub comfy_main: bool,
    pub llama_build: bool,
    pub llama_build_new: bool,
    pub llama_system: bool,
    pub ollama: bool,
}

pub open spec fn comfy_easy(home: Seq<char>) -> Seq<char> {
    text::under(home, "ComfyUI-Easy-Install/ComfyUI-Easy-Install"@)
}

/// Places worth looking at, below a home directory.
pub fn places(home: &str) -> (r: Places)
    ensures
        r.comfy_easy_output@ == text::under(
            home@,
            "ComfyUI-Easy-Install/ComfyUI-Easy-Install/ComfyUI/output"@,
        ),
        r.comfy_output@ == text::under(home@, "ComfyUI/output"@),
        r.a1111_output@ == text::under(home@, "stable-diffusion-webui/outputs"@),
        r.downloads@ == text::under(home@, "Downloads"@),
        r.documents@ == text::under(home@, "Documents"@),
        r.comfy_easy_script@ == text::under(comfy_easy(home@), "run_nvidia_gpu.sh"@),
        r.comfy_main@ == text::under(home@, "ComfyUI/main.py"@),
        r.llama_build@ == text::under(home@, "llama.cpp/build/bin/llama-server"@),
        r.llama_build_new@ == text::under(home@, "llama.cpp/build-new/bin/llama-server"@),
        r.llama_system@ == "/usr/bin/llama-server"@,
{
    let easy = text::join_path(home, "ComfyUI-Easy-Install/ComfyUI-Easy-Install");
    Places {
        comfy_easy_output: text::join_path(
            home,
            "ComfyUI-Easy-Install/ComfyUI-Easy-Install/ComfyUI/output",
        ),
        comfy_output: text::join_path(home, "ComfyUI/output"),
        a1111_output: text::join_path(home, "stable-diffusion-webui/outputs"),
        downloads: text::join_path(home, "Downloads"),
        documents: text::join_path(home, "Documents"),
        comfy_easy_script: text::join_path(easy.as_str(), "run_nvidia_gpu.sh"),
        comfy_main: text::join_path(home, "ComfyUI/main.py"),
        llama_build: text::join_path(home, "llama.cpp/build/bin/llama-server"),
        llama_build_new: text::join_path(home, "llama.cpp/build-new/bin/llama-server"),
        llama_system: "/usr/bin/llama-server".to_string(),
    }
}

// ---------------------------------------------------------------------------
// File roots
// ---------------------------------------------------------------------------

pub open spec fn writable(name: Seq<char>, path: Seq<char>) -> Seq<FileRootView> {
    seq![FileRootView { name, path, writable: true }]
}

/// Directories worth exposing, in the order they should appear.
///
/// Home comes first and is read-only: it is the useful default and the one where
/// an accidental delete would hurt most. Output directories are writable because
/// the point of reaching them remotely is to sort and delete. Lookup is by name,
/// so that no name is offered twice.
pub open spec fn roots(home: Seq<char>, f: Found) -> Seq<FileRootView> {
    seq![FileRootView { name: "home"@, path: home, writable: false }] + (
    if f.comfy_easy_output {
        writable(
            "comfy-output"@,
            text::under(home, "ComfyUI-Easy-Install/ComfyUI-Easy-Install/ComfyUI/output"@),
        )
    } else if f.comfy_output {
        writable("comfy-output"@, text::under(home, "ComfyUI/output"@))
    } else {
        seq![]
    }) + (if f.a1111_output {
        writable("a1111-output"@, text::under(home, "stable-diffusion-webui/outputs"@))
    } else {
        seq![]
    }) + (if f.downloads {
        writable("downloads"@, text::under(home, "Downloads"@))
    } else {
        seq![]
    }) + (if f.documents {
        writable("documents"@, text::under(home, "Documents"@))
    } else {
        seq![]
    })
}

/// Directories worth exposing, in the order they should appear.
pub fn detect_roots(home: &str, found: &Found) -> (r: Vec<FileRoot>)
    ensures
        config::root_views(r@) == roots(home@, *found),
{
    let p = places(home);
    let mut out: Vec<FileRoot> = Vec::new();
    out.push(FileRoot { name: "home".to_string(), path: home.to_string(), writable: false });
    if found.comfy_easy_output {
        out.push(
            FileRoot {
                name: "comfy-output".to_string(),
                path: p.comfy_easy_output,
                writable: true,
            },
        );
    } else if found.comfy_output {
        out.push(
            FileRoot { name: "comfy-output".to_string(), path: p.comfy_output, writable: true },
        );
    }
    if found.a1111_output {
        out.push(
            FileRoot { name: "a1111-output".to_string(), path: p.a1111_output, writable: true },
        );
    }
    if found.downloads {
        out.push(FileRoot { name: "downloads".to_string(), path: p.downloads, writable: true });
    }
    if found.documents {
        out.push(FileRoot { name: "documents".to_string(), path: p.documents, writable: true });
    }
    assert(config::root_views(out@) =~= roots(home@, *found));
    out
}

// ---------------------------------------------------------------------------
// Workloads
// ---------------------------------------------------------------------------

/// The failure that limits guard against is a swap runaway, so swap is capped
/// while RAM is left alone: a RAM ceiling would truncate legitimate work on a
/// machine that is used fully.
pub open spec fn swap_cap(max: Seq<char>) -> LimitsView {
    LimitsView { memory_high: None, memory_max: None, swap_max: Some(max) }
}

fn cap_swap(max: &str) -> (r: FacetLimits)
    ensures
        r@ == swap_cap(max@),
{
    FacetLimits { memory_high: None, memory_max: None, swap_max: Some(max.to_string()) }
}

pub open spec fn workload(
    id: Seq<char>,
    name: Seq<char>,
    command: Seq<Seq<char>>,
    cwd: Option<Seq<char>>,
    swap: Seq<char>,
    enabled_if: GateView,
    pty: bool,
) -> FacetView {
    FacetView {
        id,
        name,
        command,
        cwd,
        limits: swap_cap(swap),
        enabled_if,
        pty,
        expose: None,
        graceful: None,
        offloads_to_ram: false,
    }
}

fn make_workload(
    id: &str,
    name: &str,
    command: Vec<String>,
    cwd: Option<String>,
    swap: &str,
    enabled_if: Gate,
    pty: bool,
) -> (r: Facet)
    ensures
        r@ == workload(
            id@,
            name@,
            text::strs(command@),
            text::opt(cwd),
            swap@,
            enabled_if@,
            pty,
        ),
{
    Facet {
        id: id.to_string(),
        name: name.to_string(),
        command,
        cwd,
        limits: cap_swap(swap),
        enabled_if,
        pty,
        expose: None,
        graceful: None,
        offloads_to_ram: false,
    }
}

/// ComfyUI, under whichever layout is installed. The easy launcher prompts, so
/// it needs a terminal.
pub open spec fn comfy(home: Seq<char>, f: Found) -> Seq<FacetView> {
    if f.comfy_easy_script {
        seq![
            workload(
                "comfyui"@,
                "ComfyUI"@,
                seq![text::under(comfy_easy(home), "run_nvidia_gpu.sh"@)],
                Some(comfy_easy(home)),
                "6G"@,
                gate::open_gate(),
                true,
            ),
        ]
    } else if f.comfy_main {
        seq![
            workload(
                "comfyui"@,
                "ComfyUI"@,
                seq!["python"@, text::under(home, "ComfyUI/main.py"@)],
                Some(text::under(home, "ComfyUI"@)),
                "6G"@,
                gate::open_gate(),
                false,
            ),
        ]
    } else {
        seq![]
    }
}

pub open spec fn llama_at(program: Seq<char>) -> Seq<FacetView> {
    seq![
        workload(
            "llama"@,
            "llama.cpp"@,
            seq![program, "--host"@, "127.0.0.1"@],
            None,
            "4G"@,
            gate::open_gate(),
            false,
        ),
    ]
}

/// llama.cpp, however it was built.
pub open spec fn llama(home: Seq<char>, f: Found) -> Seq<FacetView> {
    if f.llama_build {
        llama_at(text::under(home, "llama.cpp/build/bin/llama-server"@))
    } else if f.llama_build_new {
        llama_at(text::under(home, "llama.cpp/build-new/bin/llama-server"@))
    } else if f.llama_system {
        llama_at("/usr/bin/llama-server"@)
    } else {
        seq![]
    }
}

pub open spec fn ollama(f: Found) -> Seq<FacetView> {
    if f.ollama {
        seq![
            workload(
                "ollama"@,
                "Ollama"@,
                seq!["ollama"@, "serve"@],
                None,
                "4G"@,
                GateView { binary: Some("ollama"@), ..gate::open_gate() },
                false,
            ),
        ]
    } else {
        seq![]
    }
}

/// Workloads present on this machine that Prism can start and contain.
pub open spec fn facets(home: Seq<char>, f: Found) -> Seq<FacetView> {
    comfy(home, f) + llama(home, f) + ollama(f)
}

fn detect_comfy(home: &str, found: &Found) -> (r: Option<Facet>)
    ensures
        (match r {
            Some(x) => seq![x@],
            None => seq![],
        }) == comfy(home@, *found),
{
    let p = places(home);
    let mut command: Vec<String> = Vec::new();
    if found.comfy_easy_script {
        let dir = text::join_path(home, "ComfyUI-Easy-Install/ComfyUI-Easy-Install");
        command.push(p.comfy_easy_script);
        assert(text::strs(command@) =~= seq![
            text::under(comfy_easy(home@), "run_nvidia_gpu.sh"@),
        ]);
        Some(
            make_workload("comfyui", "ComfyUI", command, Some(dir), "6G", Gate::default(), true),
        )
    } else if found.comfy_main {
        let dir = text::join_path(home, "ComfyUI");
        command.push("python".to_string());
        command.push(p.comfy_main);
        assert(text::strs(command@) =~= seq!["python"@, text::under(home@, "ComfyUI/main.py"@)]);
        Some(
            make_workload("comfyui", "ComfyUI", command, Some(dir), "6G", Gate::default(), false),
        )
    } else {
        None
    }
}

fn detect_llama(home: &str, found: &Found) -> (r: Option<Facet>)
    ensures
        (match r {
            Some(x) => seq![x@],
            None => seq![],
        }) == llama(home@, *found),
{
    let p = places(home);
    let program = if found.llama_build {
        p.llama_build
    } else if found.llama_build_new {
        p.llama_build_new
    } else if found.llama_system {
        p.llama_system
    } else {
        return None;
    };
    let ghost at = program@;
    let mut command: Vec<String> = Vec::new();
    command.push(program);
    command.push("--host".to_string());
    command.push("127.0.0.1".to_string());
    assert(text::strs(command@) =~= seq![at, "--host"@, "127.0.0.1"@]);
    Some(make_workload("llama", "llama.cpp", command, None, "4G", Gate::default(), false))
}

fn detect_ollama(found: &Found) -> (r: Option<Facet>)
    ensures
        (match r {
            Some(x) => seq![x@],
            None => seq![],
        }) == ollama(*found),
{
    if !found.ollama {
        return None;
    }
    let mut command: Vec<String> = Vec::new();
    command.push("ollama".to_string());
    command.push("serve".to_string());
    assert(text::strs(command@) =~= seq!["ollama"@, "serve"@]);
    let gate = Gate {
        binary: Some("ollama".to_string()),
        path: None,
        process: None,
        enabled: None,
    };
    Some(make_workload("ollama", "Ollama", command, None, "4G", gate, false))
}

fn push_some(out: &mut Vec<Facet>, f: Option<Facet>)
    ensures
        config::facet_views(final(out)@) == config::facet_views(old(out)@) + (match f {
            Some(x) => seq![x@],
            None => seq![],
        }),
{
    let ghost before = config::facet_views(out@);
    match f {
        Some(x) => {
            out.push(x);
            assert(config::facet_views(out@) =~= before + seq![x@]);
        },
        None => {
            assert(config::facet_views(out@) =~= before + Seq::<FacetView>::empty());
        },
    }
}

/// Workloads present on this machine that Prism can start and contain.
pub fn detect_facets(home: &str, found: &Found) -> (r: Vec<Facet>)
    ensures
        config::facet_views(r@) == facets(home@, *found),
{
    let mut out: Vec<Facet> = Vec::new();
    push_some(&mut out, detect_comfy(home, found));
    push_some(&mut out, detect_llama(home, found));
    push_some(&mut out, detect_ollama(found));
    assert(config::facet_views(out@) =~= facets(home@, *found));
    out
}

// ---------------------------------------------------------------------------
// The whole configuration
// ---------------------------------------------------------------------------

/// Bind to the tailnet when Tailscale is up, otherwise loopback.
///
/// Never a wildcard: an install that silently published itself to the local
/// network would be a poor default however convenient.
pub fn detect_bind(tailscale_up: bool) -> (r: BindMode)
    ensures
        tailscale_up ==> r is Tailscale,
        !tailscale_up ==> r is Localhost,
{
    if tailscale_up {
        BindMode::Tailscale
    } else {
        BindMode::Localhost
    }
}

#[derive(Debug)]
pub struct Detected {
    pub host: HostConfig,
    pub profile: Profile,
}

/// The profile's name: the host's, where it has one.
pub open spec fn profile_name(hostname: Option<&str>) -> Seq<char> {
    match hostname {
        Some(h) => text::trim(h@),
        None => "prism"@,
    }
}

/// A configuration for this machine.
pub fn detect(home: &str, found: &Found, tailscale_up: bool, hostname: Option<&str>) -> (r: Detected)
    ensures
        r.host.server.port == config::DEFAULT_PORT,
        r.host.server.bind is Tailscale <==> tailscale_up,
        r.host.server.bind is Localhost <==> !tailscale_up,
        config::root_views(r.host.files.roots@) == roots(home@, *found),
        r.host.terminal.enabled,
        r.host.terminal.shell is None,
        r.host.terminal.scrollback_bytes == 262_144,
        r.host.terminal.max_sessions == 16,
        r.host.terminal.use_scope,
        r.profile.name@ == profile_name(hostname),
        r.profile.governor.is_default(),
        storm::rule_views(r.profile.storm@) == storm::builtin(),
        config::facet_views(r.profile.facet@) == facets(home@, *found),
{
    let name = match hostname {
        Some(h) => text::trim_str(h),
        None => "prism".to_string(),
    };
    Detected {
        host: HostConfig {
            server: ServerConfig {
                port: config::DEFAULT_PORT,
                bind: detect_bind(tailscale_up),
            },
            files: FilesConfig { roots: detect_roots(home, found) },
            terminal: TerminalConfig::default(),
        },
        profile: Profile {
            name,
            governor: GovernorConfig::default(),
            storm: storm::builtin_rules(),
            facet: detect_facets(home, found),
        },
    }
}

/// Whether to write what was detected. Never where anything is there: running
/// this again must not discard the operator's own edits.
pub fn may_write(host_exists: bool, profile_exists: bool) -> (r: bool)
    ensures
        r == (!host_exists && !profile_exists),
{
    !host_exists && !profile_exists
}

// ---------------------------------------------------------------------------
// Telling what was found
// ---------------------------------------------------------------------------

pub open spec fn spaces(n: nat) -> Seq<char> {
    Seq::new(n, |i: int| ' ')
}

/// A text with spaces behind it, up to a width.
pub open spec fn padded(s: Seq<char>, width: nat) -> Seq<char> {
    if s.len() < width {
        s + spaces((width - s.len()) as nat)
    } else {
        s
    }
}

fn push_padded(out: &mut String, s: &str, width: usize)
    ensures
        final(out)@ == old(out)@ + padded(s@, width as nat),
{
    out.append(s);
    let ghost start = out@;
    let v = text::chars_of(s);
    let mut i: usize = v.len();
    assert(out@ =~= start + spaces(0));
    while i < width
        invariant
            v.len() <= i,
            i <= width || i == v.len(),
            out@ == start + spaces((i - v.len()) as nat),
        decreases width - i,
    {
        out.push(' ');
        i += 1;
        assert(out@ =~= start + spaces((i - v.len()) as nat));
    }
    assert(out@ =~= old(out)@ + padded(s@, width as nat));
}

pub open spec fn bind_said(b: BindMode) -> Seq<char> {
    match b {
        BindMode::Tailscale => "tailnet (Tailscale is up)"@,
        BindMode::Localhost => "localhost (Tailscale not detected)"@,
        BindMode::Address(a) => a@,
    }
}

pub open spec fn root_said(r: FileRootView) -> Seq<char> {
    "    "@ + padded(r.name, 14) + " "@ + r.path + (if r.writable {
        ""@
    } else {
        "  (read-only)"@
    })
}

pub open spec fn facet_said(f: FacetView) -> Seq<char> {
    "    "@ + padded(f.name, 14) + " "@ + (if f.command.len() > 0 {
        f.command[0]
    } else {
        ""@
    }) + (if f.pty {
        "  (interactive)"@
    } else {
        ""@
    })
}

/// What is told of what was detected, line by line.
pub open spec fn report_of(d: Detected) -> Seq<Seq<char>> {
    seq!["  bind        "@ + bind_said(d.host.server.bind), "  file roots"@] + config::root_views(
        d.host.files.roots@,
    ).map_values(|r: FileRootView| root_said(r)) + (if d.profile.facet@.len() == 0 {
        seq!["  workloads     none found — add them from the Facets app"@]
    } else {
        seq!["  workloads"@] + config::facet_views(d.profile.facet@).map_values(
            |f: FacetView| facet_said(f),
        )
    })
}

fn say_root(r: &FileRoot) -> (s: String)
    ensures
        s@ == root_said(r@),
{
    let mut out = "    ".to_string();
    push_padded(&mut out, r.name.as_str(), 14);
    out.append(" ");
    out.append(r.path.as_str());
    if r.writable {
        out.append("");
    } else {
        out.append("  (read-only)");
    }
    out
}

fn say_facet(f: &Facet) -> (s: String)
    ensures
        s@ == facet_said(f@),
{
    let mut out = "    ".to_string();
    push_padded(&mut out, f.name.as_str(), 14);
    out.append(" ");
    assert(f@.command.len() == f.command@.len());
    if f.command.len() > 0 {
        assert(f@.command[0] == f.command@[0]@);
        out.append(f.command[0].as_str());
    } else {
        out.append("");
    }
    if f.pty {
        out.append("  (interactive)");
    } else {
        out.append("");
    }
    out
}

/// What is told of what was detected, line by line.
pub fn report(d: &Detected) -> (r: Vec<String>)
    ensures
        text::strs(r@) == report_of(*d),
{
    let mut out: Vec<String> = Vec::new();
    let mut bind = "  bind        ".to_string();
    match &d.host.server.bind {
        BindMode::Tailscale => {
            bind.append("tailnet (Tailscale is up)");
        },
        BindMode::Localhost => {
            bind.append("localhost (Tailscale not detected)");
        },
        BindMode::Address(a) => {
            bind.append(a.as_str());
        },
    }
    out.push(bind);
    out.push("  file roots".to_string());
    let ghost head = text::strs(out@);
    assert(head =~= seq!["  bind        "@ + bind_said(d.host.server.bind), "  file roots"@]);
    let ghost all = config::root_views(d.host.files.roots@);
    let ghost f = |r: FileRootView| root_said(r);
    let mut i: usize = 0;
    assert(text::strs(out@) =~= head + all.take(0).map_values(f));
    while i < d.host.files.roots.len()
        invariant
            i <= d.host.files.roots@.len(),
            all == config::root_views(d.host.files.roots@),
            f == (|r: FileRootView| root_said(r)),
            text::strs(out@) == head + all.take(i as int).map_values(f),
        decreases d.host.files.roots@.len() - i,
    {
        let line = say_root(&d.host.files.roots[i]);
        assert(all[i as int] == d.host.files.roots@[i as int]@);
        proof {
            text::lemma_strs_push(out@, line);
        }
        out.push(line);
        i += 1;
        assert(text::strs(out@) =~= head + all.take(i as int).map_values(f));
    }
    assert(all.take(i as int) =~= all);
    let ghost mid = text::strs(out@);
    if d.profile.facet.len() == 0 {
        let line = "  workloads     none found — add them from the Facets app".to_string();
        proof {
            text::lemma_strs_push(out@, line);
        }
        out.push(line);
        assert(text::strs(out@) =~= report_of(*d));
        return out;
    }
    let line = "  workloads".to_string();
    proof {
        text::lemma_strs_push(out@, line);
    }
    out.push(line);
    let ghost top = text::strs(out@);
    let ghost facets = config::facet_views(d.profile.facet@);
    let ghost g = |x: FacetView| facet_said(x);
    let mut k: usize = 0;
    assert(text::strs(out@) =~= top + facets.take(0).map_values(g));
    while k < d.profile.facet.len()
        invariant
            k <= d.profile.facet@.len(),
            facets == config::facet_views(d.profile.facet@),
            g == (|x: FacetView| facet_said(x)),
            text::strs(out@) == top + facets.take(k as int).map_values(g),
        decreases d.profile.facet@.len() - k,
    {
        let line = say_facet(&d.profile.facet[k]);
        assert(facets[k as int] == d.profile.facet@[k as int]@);
        proof {
            text::lemma_strs_push(out@, line);
        }
        out.push(line);
        k += 1;
        assert(text::strs(out@) =~= top + facets.take(k as int).map_values(g));
    }
    assert(facets.take(k as int) =~= facets);
    assert(text::strs(out@) =~= report_of(*d));
    out
}

// ---------------------------------------------------------------------------
// Laws
// ---------------------------------------------------------------------------

/// Home is always the first root, and read-only.
pub proof fn home_comes_first(home: Seq<char>, f: Found)
    ensures
        roots(home, f).len() >= 1,
        roots(home, f)[0] == (FileRootView { name: "home"@, path: home, writable: false }),
{
}

/// No two roots share a name: lookup is by name, so that one would be out of
/// reach.
pub proof fn root_names_are_unique(home: Seq<char>, f: Found, i: int, j: int)
    requires
        0 <= i < j < roots(home, f).len(),
    ensures
        roots(home, f)[i].name != roots(home, f)[j].name,
{
    reveal_strlit("home");
    reveal_strlit("comfy-output");
    reveal_strlit("a1111-output");
    reveal_strlit("downloads");
    reveal_strlit("documents");
    assert("home"@.len() == 4 && "comfy-output"@.len() == 12 && "a1111-output"@.len() == 12
        && "downloads"@.len() == 9 && "documents"@.len() == 9);
    assert("comfy-output"@[0] == 'c' && "a1111-output"@[0] == 'a');
    assert("downloads"@[2] == 'w' && "documents"@[2] == 'c');
}

/// No two workloads share an id.
pub proof fn facet_ids_are_unique(home: Seq<char>, f: Found, i: int, j: int)
    requires
        0 <= i < j < facets(home, f).len(),
    ensures
        facets(home, f)[i].id != facets(home, f)[j].id,
{
    reveal_strlit("comfyui");
    reveal_strlit("llama");
    reveal_strlit("ollama");
    assert("comfyui"@.len() == 7 && "llama"@.len() == 5 && "ollama"@.len() == 6);
}

/// Every workload that is proposed caps swap, and none caps RAM.
pub proof fn workloads_cap_swap_but_not_ram(home: Seq<char>, f: Found, i: int)
    requires
        0 <= i < facets(home, f).len(),
    ensures
        facets(home, f)[i].limits.swap_max is Some,
        facets(home, f)[i].limits.memory_max is None,
        facets(home, f)[i].limits.memory_high is None,
{
}

/// A place that was looked at and found.
pub open spec fn is_there(home: Seq<char>, f: Found, path: Seq<char>) -> bool {
    ||| f.comfy_easy_output && path == text::under(
        home,
        "ComfyUI-Easy-Install/ComfyUI-Easy-Install/ComfyUI/output"@,
    )
    ||| f.comfy_output && path == text::under(home, "ComfyUI/output"@)
    ||| f.a1111_output && path == text::under(home, "stable-diffusion-webui/outputs"@)
    ||| f.downloads && path == text::under(home, "Downloads"@)
    ||| f.documents && path == text::under(home, "Documents"@)
    ||| f.comfy_easy_script && path == text::under(comfy_easy(home), "run_nvidia_gpu.sh"@)
    ||| f.comfy_main && path == text::under(home, "ComfyUI/main.py"@)
    ||| f.llama_build && path == text::under(home, "llama.cpp/build/bin/llama-server"@)
    ||| f.llama_build_new && path == text::under(home, "llama.cpp/build-new/bin/llama-server"@)
    ||| f.llama_system && path == "/usr/bin/llama-server"@
    ||| f.ollama && path == "ollama"@
}

/// Every workload that is proposed runs a program or a script that was found.
pub proof fn no_workload_is_fabricated(home: Seq<char>, f: Found, i: int)
    requires
        0 <= i < facets(home, f).len(),
    ensures
        exists|k: int|
            0 <= k < facets(home, f)[i].command.len() && is_there(
                home,
                f,
                #[trigger] facets(home, f)[i].command[k],
            ),
{
    let c = facets(home, f)[i].command;
    assert(is_there(home, f, c[0]) || c.len() == 2 && is_there(home, f, c[1]));
}

/// Every root that is proposed, but for home, is a directory that was found.
pub proof fn no_root_is_fabricated(home: Seq<char>, f: Found, i: int)
    requires
        1 <= i < roots(home, f).len(),
    ensures
        is_there(home, f, roots(home, f)[i].path),
{
}

/// What is found of ComfyUI: the easy installation first, which asks questions and
/// so gets a terminal, else the plain one.
pub proof fn what_is_found_of_comfyui(home: Seq<char>, f: Found)
    ensures
        f.comfy_easy_script ==> {
            let d = text::under(home, "ComfyUI-Easy-Install/ComfyUI-Easy-Install"@);
            &&& comfy(home, f).len() == 1
            &&& comfy(home, f)[0].id == "comfyui"@
            &&& comfy(home, f)[0].command == seq![text::under(d, "run_nvidia_gpu.sh"@)]
            &&& comfy(home, f)[0].cwd == Some(d)
            &&& comfy(home, f)[0].pty
            &&& comfy(home, f)[0].limits.swap_max == Some("6G"@)
        },
        !f.comfy_easy_script && f.comfy_main ==> {
            &&& comfy(home, f).len() == 1
            &&& comfy(home, f)[0].id == "comfyui"@
            &&& comfy(home, f)[0].command == seq!["python"@, text::under(home, "ComfyUI/main.py"@)]
            &&& comfy(home, f)[0].cwd == Some(text::under(home, "ComfyUI"@))
            &&& !comfy(home, f)[0].pty
            &&& comfy(home, f)[0].limits.swap_max == Some("6G"@)
        },
        !f.comfy_easy_script && !f.comfy_main ==> comfy(home, f).len() == 0,
{
}

/// What is found of llama.cpp, where it was built last or where the system has it,
/// serving this machine alone; and of Ollama, which runs only where it is
/// installed.
pub proof fn what_is_found_of_models(home: Seq<char>, f: Found)
    ensures
        ({
            let at = if f.llama_build {
                Some(text::under(home, "llama.cpp/build/bin/llama-server"@))
            } else if f.llama_build_new {
                Some(text::under(home, "llama.cpp/build-new/bin/llama-server"@))
            } else if f.llama_system {
                Some("/usr/bin/llama-server"@)
            } else {
                None
            };
            &&& at is None ==> llama(home, f).len() == 0
            &&& at matches Some(program) ==> {
                &&& llama(home, f).len() == 1
                &&& llama(home, f)[0].id == "llama"@
                &&& llama(home, f)[0].command == seq![program, "--host"@, "127.0.0.1"@]
                &&& llama(home, f)[0].cwd is None
                &&& !llama(home, f)[0].pty
                &&& llama(home, f)[0].limits.swap_max == Some("4G"@)
                &&& llama(home, f)[0].enabled_if == gate::open_gate()
            }
        }),
        !f.ollama ==> ollama(f).len() == 0,
        f.ollama ==> {
            &&& ollama(f).len() == 1
            &&& ollama(f)[0].id == "ollama"@
            &&& ollama(f)[0].command == seq!["ollama"@, "serve"@]
            &&& ollama(f)[0].enabled_if.binary == Some("ollama"@)
            &&& ollama(f)[0].limits.swap_max == Some("4G"@)
            &&& !ollama(f)[0].pty
        },
{
}

/// Everything that is found is proposed, in one order, and nothing is proposed
/// that is exposed, asked to yield, or taken to spill before its owner says so.
pub proof fn everything_found_is_proposed(home: Seq<char>, f: Found, i: int)
    ensures
        facets(home, f) == comfy(home, f) + llama(home, f) + ollama(f),
        facets(home, f).len() == (if f.comfy_easy_script || f.comfy_main {
            1int
        } else {
            0
        }) + (if f.llama_build || f.llama_build_new || f.llama_system {
            1int
        } else {
            0
        }) + (if f.ollama {
            1int
        } else {
            0
        }),
        0 <= i < facets(home, f).len() ==> facets(home, f)[i].expose is None && facets(
            home,
            f,
        )[i].graceful is None && !facets(home, f)[i].offloads_to_ram,
{
}

/// Every directory that is found is proposed: the home directory to read, and
/// where things are put to write, the output of ComfyUI once.
pub proof fn every_directory_found_is_proposed(home: Seq<char>, f: Found)
    ensures
        ({
            let r = roots(home, f);
            let has = |name: Seq<char>, path: Seq<char>|
                r.contains(FileRootView { name, path, writable: true });
            &&& r.contains(FileRootView { name: "home"@, path: home, writable: false })
            &&& f.comfy_easy_output ==> has(
                "comfy-output"@,
                text::under(home, "ComfyUI-Easy-Install/ComfyUI-Easy-Install/ComfyUI/output"@),
            )
            &&& !f.comfy_easy_output && f.comfy_output ==> has(
                "comfy-output"@,
                text::under(home, "ComfyUI/output"@),
            )
            &&& f.a1111_output ==> has(
                "a1111-output"@,
                text::under(home, "stable-diffusion-webui/outputs"@),
            )
            &&& f.downloads ==> has("downloads"@, text::under(home, "Downloads"@))
            &&& f.documents ==> has("documents"@, text::under(home, "Documents"@))
            &&& r.len() == 1 + (if f.comfy_easy_output || f.comfy_output {
                1int
            } else {
                0
            }) + (if f.a1111_output {
                1int
            } else {
                0
            }) + (if f.downloads {
                1int
            } else {
                0
            }) + (if f.documents {
                1int
            } else {
                0
            })
        }),
{
    let r = roots(home, f);
    let a: int = if f.comfy_easy_output || f.comfy_output {
        2
    } else {
        1
    };
    let b: int = a + if f.a1111_output {
        1int
    } else {
        0
    };
    let c: int = b + if f.downloads {
        1int
    } else {
        0
    };
    assert(r[0] == (FileRootView { name: "home"@, path: home, writable: false }));
    if a == 2 {
        assert(r[1].name == "comfy-output"@);
    }
    if f.a1111_output {
        assert(r[a].name == "a1111-output"@);
    }
    if f.downloads {
        assert(r[b].name == "downloads"@);
    }
    if f.documents {
        assert(r[c].name == "documents"@);
    }
}

/// A name is filled up with blanks to its column, and never cut.
pub proof fn a_column_is_filled_up(s: Seq<char>, width: nat)
    ensures
        padded(s, width).len() == (if s.len() < width {
            width
        } else {
            s.len()
        }),
        padded(s, width).take(s.len() as int) == s,
        forall|i: int| s.len() <= i < padded(s, width).len() ==> padded(s, width)[i] == ' ',
{
    assert(padded(s, width).take(s.len() as int) =~= s);
}

/// The profile is called after the host, or after Prism where that is not known.
pub proof fn a_profile_is_called_after_its_host(hostname: &str)
    ensures
        profile_name(Some(hostname)) == text::trim(hostname@),
        profile_name(None) == "prism"@,
{
}

/// The report tells every root that is proposed and every workload, in order, and
/// says so where there is no workload.
pub proof fn the_report_tells_everything(d: Detected, i: int)
    ensures
        ({
            let r = report_of(d);
            let roots = config::root_views(d.host.files.roots@);
            let facets = config::facet_views(d.profile.facet@);
            let n = roots.len() as int;
            &&& r[0] == "  bind        "@ + bind_said(d.host.server.bind)
            &&& r[1] == "  file roots"@
            &&& 0 <= i < n ==> r[2 + i] == root_said(roots[i])
            &&& d.profile.facet@.len() == 0 ==> r.len() == n + 3 && r[n + 2]
                == "  workloads     none found — add them from the Facets app"@
            &&& d.profile.facet@.len() > 0 ==> r.len() == n + 3 + facets.len() && r[n + 2]
                == "  workloads"@
            &&& d.profile.facet@.len() > 0 && 0 <= i < facets.len() ==> r[n + 3 + i] == facet_said(
                facets[i],
            )
        }),
{
}

/// A line of the report names what it tells of, and what it runs or where it is,
/// with a word where it is interactive or may only be read.
pub proof fn a_line_of_the_report_names_its_subject(r: FileRootView, f: FacetView)
    ensures
        r.writable ==> root_said(r) == "    "@ + padded(r.name, 14) + " "@ + r.path + ""@,
        !r.writable ==> root_said(r) == "    "@ + padded(r.name, 14) + " "@ + r.path
            + "  (read-only)"@,
        f.command.len() > 0 && f.pty ==> facet_said(f) == "    "@ + padded(f.name, 14) + " "@
            + f.command[0] + "  (interactive)"@,
        f.command.len() > 0 && !f.pty ==> facet_said(f) == "    "@ + padded(f.name, 14) + " "@
            + f.command[0] + ""@,
{
}

} // verus!
