use prism::config::{
    config_dir, find_facet, state_dir, BindMode, FacetLimits, Facet, FilesConfig, GovernorConfig, HostConfig,
    Profile, ServerConfig, TerminalConfig, DEFAULT_PORT,
};
use prism::gate::Gate;
use prism::term::ring::DEFAULT_CAPACITY;

#[test]
fn default_port_is_9000() {
    assert_eq!(ServerConfig::default().port, 9000);
}

#[test]
fn default_bind_is_tailnet_not_wildcard() {
    let cfg = ServerConfig::default();
    assert_eq!(cfg.bind, BindMode::Tailscale);
    assert!(!cfg.bind.is_wildcard());
}

#[test]
fn wildcard_addresses_are_flagged() {
    assert!(BindMode::Address("0.0.0.0:9000".into()).is_wildcard());
    assert!(BindMode::Address("[::]:9000".into()).is_wildcard());
    assert!(!BindMode::Address("127.0.0.1:9000".into()).is_wildcard());
    for zeros in ["::", "0::0", "0:0:0:0:0:0:0:0", "::0.0.0.0"] {
        assert!(BindMode::Address(zeros.into()).is_wildcard(), "{zeros}");
    }
    assert!(!BindMode::Address("::1".into()).is_wildcard());
    assert!(!BindMode::Address("fe80::1".into()).is_wildcard());
}

#[test]
fn files_disabled_when_no_roots_configured() {
    assert!(FilesConfig::default().roots.is_empty());
}

#[test]
fn profile_ships_with_builtin_storm_rules() {
    assert!(!Profile::default().storm.is_empty());
}

#[test]
fn governor_thresholds_are_ordered() {
    let g = GovernorConfig::default();
    assert!(g.amber_stall < g.red_stall && g.red_stall < g.black_stall);
    assert!(g.amber_headroom_mib > g.red_headroom_mib);
    assert!(g.red_headroom_mib > g.black_headroom_mib);
}

#[test]
fn facet_limits_are_unset_by_default() {
    let l = FacetLimits::default();
    assert!(l.memory_high.is_none() && l.memory_max.is_none() && l.swap_max.is_none());
}

#[test]
fn a_host_with_no_configuration_listens_on_the_default_port() {
    let cfg = HostConfig::default();
    assert_eq!(cfg.server.port, DEFAULT_PORT);
    assert!(cfg.files.roots.is_empty());
}

#[test]
fn the_terminal_is_on_and_contained_by_default() {
    let t = TerminalConfig::default();
    assert!(t.enabled && t.use_scope);
    assert!(t.shell.is_none());
    assert_eq!(t.scrollback_bytes, DEFAULT_CAPACITY);
    assert_eq!(t.max_sessions, 16);
}

#[test]
fn the_default_profile_is_named_and_empty_of_facets() {
    let p = Profile::default();
    assert_eq!(p.name, "default");
    assert!(p.facet.is_empty());
}

#[test]
fn default_thresholds_have_the_documented_values() {
    let g = GovernorConfig::default();
    assert_eq!(g.amber_stall, 50_000_000);
    assert_eq!(g.red_stall, 200_000_000);
    assert_eq!(g.black_stall, 500_000_000);
    assert_eq!((g.amber_headroom_mib, g.red_headroom_mib, g.black_headroom_mib), (4096, 1536, 512));
    assert_eq!(g.sustain_secs, 10);
}

#[test]
fn the_configuration_directory_prefers_what_is_explicit() {
    assert_eq!(config_dir(Some("/etc/p"), Some("/x"), Some("/home/u")), "/etc/p");
    assert_eq!(config_dir(None, Some("/x"), Some("/home/u")), "/x/prism");
    assert_eq!(config_dir(None, None, Some("/home/u")), "/home/u/.config/prism");
    assert_eq!(state_dir(None, None, Some("/home/u")), "/home/u/.local/state/prism");
}

#[test]
fn a_facet_is_found_by_its_id() {
    let facets = vec![
        Facet {
            id: "a".to_string(),
            name: "A".to_string(),
            command: vec!["run".to_string()],
            cwd: None,
            limits: FacetLimits::default(),
            enabled_if: Gate::default(),
            pty: false,
            expose: None,
            graceful: None,
            offloads_to_ram: false,
        },
    ];
    assert_eq!(find_facet(&facets, "a").unwrap().name, "A");
    assert!(find_facet(&facets, "b").is_none());
}
