//! Configuration, split by portability.
//!
//! [`HostConfig`] describes *this* machine: where to bind, where state lives,
//! which directories may be browsed. It never travels.
//!
//! [`Profile`] describes intent: what to watch for, what to run, what the
//! thresholds are. It is designed to be exported from one machine and imported
//! on another, so it must contain no secrets and no host-specific absolutes it
//! cannot justify. Items that cannot apply on the destination are gated rather
//! than erroring.

use crate::gate;
use crate::gate::{Gate, GateView};
use crate::graceful_config::{Graceful, GracefulView};
use crate::text;
use crate::watchdog::storm;
use crate::watchdog::storm::StormRule;
use vstd::prelude::*;

verus! {

pub const DEFAULT_PORT: u16 = 9000;

// ---------------------------------------------------------------------------
// Host configuration
// ---------------------------------------------------------------------------

#[derive(Debug, Clone)]
pub struct HostConfig {
    pub server: ServerConfig,
    pub files: FilesConfig,
    pub terminal: TerminalConfig,
}

/// Terminal sessions.
///
/// Present as host config rather than profile config because whether remote
/// shell access is acceptable is a property of the machine and its exposure,
/// not of the workload profile running on it — and it should not travel between
/// hosts in an exported profile.
#[derive(Debug, Clone)]
pub struct TerminalConfig {
    /// An operator deploying to a machine where remote shell access is
    /// unacceptable turns the feature off here, rather than relying on nobody
    /// navigating to it.
    pub enabled: bool,
    /// Defaults to `$SHELL`.
    pub shell: Option<String>,
    pub scrollback_bytes: usize,
    pub max_sessions: usize,
    /// Wrap each session in a transient systemd scope. Only disable on hosts
    /// with no user manager: without it a terminal is the one workload Prism
    /// cannot contain or attribute.
    pub use_scope: bool,
}

impl Default for TerminalConfig {
    fn default() -> (r: Self)
        ensures
            r.enabled,
            r.shell is None,
            r.scrollback_bytes == 262_144,
            r.max_sessions == 16,
            r.use_scope,
    {
        TerminalConfig {
            enabled: true,
            shell: None,
            scrollback_bytes: 262_144,
            max_sessions: 16,
            use_scope: true,
        }
    }
}

impl Default for HostConfig {
    fn default() -> (r: Self)
        ensures
            r.server.port == DEFAULT_PORT,
            r.server.bind is Tailscale,
            r.files.roots@.len() == 0,
            r.terminal.enabled,
            r.terminal.shell is None,
            r.terminal.scrollback_bytes == 262_144,
            r.terminal.max_sessions == 16,
            r.terminal.use_scope,
    {
        HostConfig {
            server: ServerConfig::default(),
            files: FilesConfig::default(),
            terminal: TerminalConfig::default(),
        }
    }
}

#[derive(Debug, Clone)]
pub struct ServerConfig {
    pub port: u16,
    /// Which interface to listen on.
    pub bind: BindMode,
}

impl Default for ServerConfig {
    fn default() -> (r: Self)
        ensures
            r.port == DEFAULT_PORT,
            r.bind is Tailscale,
    {
        ServerConfig { port: DEFAULT_PORT, bind: BindMode::Tailscale }
    }
}

/// Where the API listens.
///
/// [`BindMode::Tailscale`] is the default and resolves the host's tailnet
/// address at startup. Binding the tailnet interface rather than `0.0.0.0` means
/// the service is not reachable from the local network or the internet even if
/// authentication were misconfigured — the network boundary and the auth
/// boundary fail independently.
#[derive(Debug, Clone, PartialEq, Eq)]
pub enum BindMode {
    Tailscale,
    Localhost,
    /// An explicit address. Prism warns loudly if this is a wildcard.
    Address(String),
}

impl Default for BindMode {
    fn default() -> (r: Self)
        ensures
            r is Tailscale,
    {
        BindMode::Tailscale
    }
}

/// An IPv6 address that is all zero holds nothing but zeros, colons and, where
/// its end is written as an IPv4 address, dots: `::`, `0:0:0:0:0:0:0:0`,
/// `::0.0.0.0`.
pub open spec fn written_in_zeros(a: Seq<char>) -> bool {
    a.contains(':') && forall|i: int|
        0 <= i < a.len() ==> #[trigger] a[i] == '0' || a[i] == ':' || a[i] == '.'
}

fn is_written_in_zeros(a: &str) -> (r: bool)
    ensures
        r == written_in_zeros(a@),
{
    let v = text::chars_of(a);
    let mut i: usize = 0;
    while i < v.len()
        invariant
            i <= v.len(),
            v@ == a@,
            forall|j: int| 0 <= j < i ==> #[trigger] a@[j] == '0' || a@[j] == ':' || a@[j] == '.',
        decreases v.len() - i,
    {
        if v[i] != '0' && v[i] != ':' && v[i] != '.' {
            assert(!written_in_zeros(a@)) by {
                assert(a@[i as int] != '0');
            }
            return false;
        }
        i += 1;
    }
    text::contains_char(a, ':')
}

/// An address that stands for every interface.
pub open spec fn wildcard_address(a: Seq<char>) -> bool {
    text::starts(a, "0.0.0.0"@) || text::starts(a, "[::]"@) || written_in_zeros(a)
}

/// A mode that stands for every interface.
pub open spec fn wildcard_mode(m: BindMode) -> bool {
    match m {
        BindMode::Address(a) => wildcard_address(a@),
        _ => false,
    }
}

impl BindMode {
    /// True for addresses that expose the service beyond the local host and
    /// tailnet. Used to emit a warning, not to refuse.
    pub fn is_wildcard(&self) -> (r: bool)
        ensures
            r == wildcard_mode(*self),
    {
        match self {
            BindMode::Address(a) => text::starts_with(a.as_str(), "0.0.0.0") || text::starts_with(
                a.as_str(),
                "[::]",
            ) || is_written_in_zeros(a.as_str()),
            _ => false,
        }
    }
}

#[derive(Debug, Clone)]
pub struct FilesConfig {
    /// Directories exposed to the file browser. Empty means the feature is off.
    ///
    /// An allowlist rather than a denylist: the browser can reach nothing that
    /// is not named here, so a path-traversal slip cannot escape into the wider
    /// filesystem.
    pub roots: Vec<FileRoot>,
}

impl Default for FilesConfig {
    fn default() -> (r: Self)
        ensures
            r.roots@.len() == 0,
    {
        FilesConfig { roots: Vec::new() }
    }
}

#[derive(Debug, Clone)]
pub struct FileRoot {
    pub name: String,
    pub path: String,
    /// Writes and deletes are refused unless this is explicitly true.
    pub writable: bool,
}

pub struct FileRootView {
    pub name: Seq<char>,
    pub path: Seq<char>,
    pub writable: bool,
}

impl View for FileRoot {
    type V = FileRootView;

    open spec fn view(&self) -> FileRootView {
        FileRootView { name: self.name@, path: self.path@, writable: self.writable }
    }
}

pub open spec fn root_views(v: Seq<FileRoot>) -> Seq<FileRootView> {
    v.map_values(|r: FileRoot| r@)
}

// ---------------------------------------------------------------------------
// Portable profile
// ---------------------------------------------------------------------------

#[derive(Debug)]
pub struct Profile {
    pub name: String,
    pub governor: GovernorConfig,
    /// Process-storm rules. Defaults to the built-in ones.
    pub storm: Vec<StormRule>,
    pub facet: Vec<Facet>,
}

impl Default for Profile {
    fn default() -> (r: Self)
        ensures
            r.name@ == "default"@,
            r.governor.is_default(),
            storm::rule_views(r.storm@) == storm::builtin(),
            r.facet@.len() == 0,
    {
        Profile {
            name: "default".to_string(),
            governor: GovernorConfig::default(),
            storm: storm::builtin_rules(),
            facet: Vec::new(),
        }
    }
}

/// Governor thresholds.
///
/// Expressed against honest headroom and PSI stall rather than raw free memory,
/// because both of those remain meaningful on a machine with a different amount
/// of RAM — which is what makes a profile portable at all.
#[derive(Debug, Clone)]
pub struct GovernorConfig {
    /// Share of wall time stalled, in parts per billion.
    pub amber_stall: u64,
    pub red_stall: u64,
    pub black_stall: u64,
    /// Honest headroom floors, in MiB.
    pub amber_headroom_mib: u64,
    pub red_headroom_mib: u64,
    pub black_headroom_mib: u64,
    /// Free-space floors for the tightest watched mount, in MiB.
    ///
    /// Absolute rather than percentage: a host writing multi-gigabyte model
    /// files can sit at a comfortable-sounding 90% of a large disk and still
    /// fail the next download. Defaults are sized for that workload.
    pub amber_disk_free_mib: u64,
    pub red_disk_free_mib: u64,
    pub black_disk_free_mib: u64,
    /// How far over its VRAM budget a governed workload may be, in MiB.
    pub amber_vram_overdraft_mib: u64,
    pub red_vram_overdraft_mib: u64,
    pub black_vram_overdraft_mib: u64,
    /// VRAM kept free for the process that has not started yet, in MiB.
    pub vram_reserve_mib: u64,
    /// Filesystems to watch. Empty means use `sensors::disk::default_paths()`.
    pub disk_paths: Vec<String>,
    /// How long a threshold must hold before the tier changes, in seconds.
    /// Prevents a single sampling artefact from killing a workload.
    pub sustain_secs: u64,
}

impl GovernorConfig {
    /// The thresholds that ship.
    pub open spec fn is_default(&self) -> bool {
        &&& self.amber_stall == 50_000_000
        &&& self.red_stall == 200_000_000
        &&& self.black_stall == 500_000_000
        &&& self.amber_headroom_mib == 4096
        &&& self.red_headroom_mib == 1536
        &&& self.black_headroom_mib == 512
        &&& self.amber_disk_free_mib == 20480
        &&& self.red_disk_free_mib == 8192
        &&& self.black_disk_free_mib == 2048
        &&& self.amber_vram_overdraft_mib == 256
        &&& self.red_vram_overdraft_mib == 2048
        &&& self.black_vram_overdraft_mib == 4096
        &&& self.vram_reserve_mib == 1024
        &&& self.disk_paths@.len() == 0
        &&& self.sustain_secs == 10
    }
}

impl Default for GovernorConfig {
    fn default() -> (r: Self)
        ensures
            r.is_default(),
    {
        GovernorConfig {
            amber_stall: 50_000_000,
            red_stall: 200_000_000,
            black_stall: 500_000_000,
            amber_headroom_mib: 4096,
            red_headroom_mib: 1536,
            black_headroom_mib: 512,
            // 20 GiB / 8 GiB / 2 GiB. Generous because a single language model
            // download is routinely 10-40 GiB: warning at 2 GiB free would fire
            // long after the write that fills the disk had already begun.
            amber_disk_free_mib: 20480,
            red_disk_free_mib: 8192,
            black_disk_free_mib: 2048,
            amber_vram_overdraft_mib: 256,
            red_vram_overdraft_mib: 2048,
            black_vram_overdraft_mib: 4096,
            vram_reserve_mib: 1024,
            disk_paths: Vec::new(),
            sustain_secs: 10,
        }
    }
}

/// A workload Prism owns: it can start it, stop it, and constrain it.
#[derive(Debug)]
pub struct Facet {
    pub id: String,
    pub name: String,
    pub command: Vec<String>,
    pub cwd: Option<String>,
    pub limits: FacetLimits,
    pub enabled_if: Gate,
    /// Run on a terminal that the browser can attach to.
    pub pty: bool,
    /// The web interface that the workload serves, if it has one.
    pub expose: Option<Expose>,
    /// How to ask the workload to give something back.
    pub graceful: Option<Graceful>,
    /// Under VRAM pressure the workload moves its weights to host memory.
    pub offloads_to_ram: bool,
}

/// A port on loopback that a facet serves a web interface on.
#[derive(Debug, Clone, Copy)]
pub struct Expose {
    pub port: u16,
    pub tls: bool,
}

/// Resource ceilings, all optional.
///
/// Deliberately unset by default. The operator here routinely runs workloads
/// that consume nearly the whole machine, and a ceiling that truncates a
/// legitimate job is a worse outcome than the job running slowly. `swap_max` is
/// the exception worth setting: the failure mode being defended against is a
/// swap runaway, so capping swap contains the spiral without constraining RAM
/// use at all.
#[derive(Debug)]
pub struct FacetLimits {
    pub memory_high: Option<String>,
    pub memory_max: Option<String>,
    pub swap_max: Option<String>,
}

pub struct LimitsView {
    pub memory_high: Option<Seq<char>>,
    pub memory_max: Option<Seq<char>>,
    pub swap_max: Option<Seq<char>>,
}

impl View for FacetLimits {
    type V = LimitsView;

    open spec fn view(&self) -> LimitsView {
        LimitsView {
            memory_high: text::opt(self.memory_high),
            memory_max: text::opt(self.memory_max),
            swap_max: text::opt(self.swap_max),
        }
    }
}

pub open spec fn no_limits() -> LimitsView {
    LimitsView { memory_high: None, memory_max: None, swap_max: None }
}

impl Default for FacetLimits {
    fn default() -> (r: Self)
        ensures
            r@ == no_limits(),
    {
        FacetLimits { memory_high: None, memory_max: None, swap_max: None }
    }
}

impl Clone for FacetLimits {
    fn clone(&self) -> (r: Self)
        ensures
            r@ == self@,
    {
        FacetLimits {
            memory_high: text::copy_opt(&self.memory_high),
            memory_max: text::copy_opt(&self.memory_max),
            swap_max: text::copy_opt(&self.swap_max),
        }
    }
}

pub struct FacetView {
    pub id: Seq<char>,
    pub name: Seq<char>,
    pub command: Seq<Seq<char>>,
    pub cwd: Option<Seq<char>>,
    pub limits: LimitsView,
    pub enabled_if: GateView,
    pub pty: bool,
    pub expose: Option<Expose>,
    pub graceful: Option<GracefulView>,
    pub offloads_to_ram: bool,
}

impl View for Facet {
    type V = FacetView;

    open spec fn view(&self) -> FacetView {
        FacetView {
            id: self.id@,
            name: self.name@,
            command: text::strs(self.command@),
            cwd: text::opt(self.cwd),
            limits: self.limits@,
            enabled_if: self.enabled_if@,
            pty: self.pty,
            expose: self.expose,
            graceful: match self.graceful {
                Some(g) => Some(g@),
                None => None,
            },
            offloads_to_ram: self.offloads_to_ram,
        }
    }
}

impl Clone for Facet {
    fn clone(&self) -> (r: Self)
        ensures
            r@ == self@,
    {
        Facet {
            id: self.id.clone(),
            name: self.name.clone(),
            command: text::copy_all(&self.command),
            cwd: text::copy_opt(&self.cwd),
            limits: self.limits.clone(),
            enabled_if: self.enabled_if.clone(),
            pty: self.pty,
            expose: self.expose,
            graceful: match &self.graceful {
                Some(g) => Some(g.clone()),
                None => None,
            },
            offloads_to_ram: self.offloads_to_ram,
        }
    }
}

pub open spec fn facet_views(v: Seq<Facet>) -> Seq<FacetView> {
    v.map_values(|f: Facet| f@)
}

/// The first facet of an id.
pub open spec fn the_facet(v: Seq<FacetView>, id: Seq<char>) -> Option<FacetView>
    decreases v.len(),
{
    if v.len() == 0 {
        None
    } else if v[0].id == id {
        Some(v[0])
    } else {
        the_facet(v.skip(1), id)
    }
}

/// The first facet of an id.
pub fn find_facet<'a>(facets: &'a Vec<Facet>, id: &str) -> (r: Option<&'a Facet>)
    ensures
        (match r {
            Some(f) => Some(f@),
            None => None,
        }) == the_facet(facet_views(facets@), id@),
{
    let ghost all = facet_views(facets@);
    let mut i: usize = 0;
    assert(all.skip(0) =~= all);
    while i < facets.len()
        invariant
            i <= facets.len(),
            all == facet_views(facets@),
            the_facet(all.skip(i as int), id@) == the_facet(all, id@),
        decreases facets.len() - i,
    {
        assert(all.skip(i as int)[0] == facets@[i as int]@);
        assert(all.skip(i as int).skip(1) =~= all.skip(i + 1));
        if text::same(facets[i].id.as_str(), id) {
            return Some(&facets[i]);
        }
        i += 1;
    }
    None
}

// ---------------------------------------------------------------------------
// Paths
// ---------------------------------------------------------------------------

/// The first that is there: an explicit directory, one below an XDG base, one
/// below the home directory, and else one for the whole system.
pub open spec fn chosen_dir(
    explicit: Option<&str>,
    xdg: Option<&str>,
    home: Option<&str>,
    below_home: Seq<char>,
    system: Seq<char>,
) -> Seq<char> {
    match (explicit, xdg, home) {
        (Some(d), _, _) => d@,
        (None, Some(d), _) => text::under(d@, "prism"@),
        (None, None, Some(h)) => text::under(h@, below_home),
        (None, None, None) => system,
    }
}

fn choose_dir(
    explicit: Option<&str>,
    xdg: Option<&str>,
    home: Option<&str>,
    below_home: &str,
    system: &str,
) -> (r: String)
    ensures
        r@ == chosen_dir(explicit, xdg, home, below_home@, system@),
{
    match explicit {
        Some(d) => d.to_string(),
        None => match xdg {
            Some(d) => text::join_path(d, "prism"),
            None => match home {
                Some(h) => text::join_path(h, below_home),
                None => system.to_string(),
            },
        },
    }
}

/// Where configuration lives, from `PRISM_CONFIG_DIR`, `XDG_CONFIG_HOME` and
/// `HOME`.
pub fn config_dir(explicit: Option<&str>, xdg: Option<&str>, home: Option<&str>) -> (r: String)
    ensures
        r@ == chosen_dir(explicit, xdg, home, ".config/prism"@, "/etc/prism"@),
{
    choose_dir(explicit, xdg, home, ".config/prism", "/etc/prism")
}

/// Where state lives, from `PRISM_STATE_DIR`, `XDG_STATE_HOME` and `HOME`.
pub fn state_dir(explicit: Option<&str>, xdg: Option<&str>, home: Option<&str>) -> (r: String)
    ensures
        r@ == chosen_dir(explicit, xdg, home, ".local/state/prism"@, "/var/lib/prism"@),
{
    choose_dir(explicit, xdg, home, ".local/state/prism", "/var/lib/prism")
}

// ---------------------------------------------------------------------------
// Laws
// ---------------------------------------------------------------------------

/// A facet is the first of its id.
pub proof fn a_facet_is_the_first_of_its_id(v: Seq<FacetView>, id: Seq<char>, i: int)
    requires
        0 <= i <= v.len(),
        forall|j: int| 0 <= j < i ==> (#[trigger] v[j]).id != id,
    ensures
        i < v.len() && v[i].id == id ==> the_facet(v, id) == Some(v[i]),
        i == v.len() ==> the_facet(v, id) is None,
    decreases v.len(),
{
    if i > 0 {
        let rest = v.skip(1);
        assert(v[0].id != id);
        assert forall|j: int| 0 <= j < i - 1 implies (#[trigger] rest[j]).id != id by {
            assert(rest[j] == v[j + 1]);
        }
        a_facet_is_the_first_of_its_id(rest, id, i - 1);
    }
}

/// The thresholds that hold unless others are set: each tier is worse than the one
/// before it in every signal, and a tier must hold for ten seconds.
pub proof fn the_usual_thresholds(c: GovernorConfig)
    requires
        c.is_default(),
    ensures
        c.amber_stall == 50_000_000 && c.red_stall == 200_000_000 && c.black_stall == 500_000_000,
        c.amber_headroom_mib == 4 * 1024 && c.red_headroom_mib == 1536 && c.black_headroom_mib == 512,
        c.amber_disk_free_mib == 20 * 1024 && c.red_disk_free_mib == 8 * 1024
            && c.black_disk_free_mib == 2 * 1024,
        c.amber_vram_overdraft_mib == 256 && c.red_vram_overdraft_mib == 2 * 1024
            && c.black_vram_overdraft_mib == 4 * 1024,
        c.vram_reserve_mib == 1024,
        c.sustain_secs == 10,
        c.disk_paths@.len() == 0,
{
}

/// An address is a wildcard where it begins as one is written, or where it is
/// written in zeros, colons and points alone, with a colon among them; neither of
/// the two other ways to be reached ever is.
pub proof fn what_is_a_wildcard(a: String)
    ensures
        wildcard_mode(BindMode::Address(a)) <==> {
            ||| a@.len() >= 7 && a@.take(7) == "0.0.0.0"@
            ||| a@.len() >= 4 && a@.take(4) == "[::]"@
            ||| (exists|i: int| 0 <= i < a@.len() && a@[i] == ':') && forall|i: int|
                0 <= i < a@.len() ==> a@[i] == '0' || a@[i] == ':' || a@[i] == '.'
        },
        !wildcard_mode(BindMode::Tailscale),
        !wildcard_mode(BindMode::Localhost),
{
    reveal_strlit("0.0.0.0");
    reveal_strlit("[::]");
    if a@.len() >= 7 {
        assert(a@.take(7) =~= a@.subrange(0, 7));
    }
    if a@.len() >= 4 {
        assert(a@.take(4) =~= a@.subrange(0, 4));
    }
    if a@.contains(':') {
        let i = choose|i: int| 0 <= i < a@.len() && a@[i] == ':';
        assert(a@[i] == ':');
    }
    if exists|i: int| 0 <= i < a@.len() && a@[i] == ':' {
        let i = choose|i: int| 0 <= i < a@.len() && a@[i] == ':';
        assert(a@.contains(a@[i]));
    }
}

/// Where files are kept: where it is said, else in the directory that the desktop
/// names, else below the home directory, else where the system keeps them.
pub proof fn where_files_are_kept(said: &str, xdg: &str, home: &str, below: Seq<char>, system: Seq<char>)
    ensures
        chosen_dir(Some(said), Some(xdg), Some(home), below, system) == said@,
        chosen_dir(Some(said), None, None, below, system) == said@,
        chosen_dir(None, Some(xdg), Some(home), below, system) == text::under(xdg@, "prism"@),
        chosen_dir(None, Some(xdg), None, below, system) == text::under(xdg@, "prism"@),
        chosen_dir(None, None, Some(home), below, system) == text::under(home@, below),
        chosen_dir(None, None, None, below, system) == system,
{
}

} // verus!
