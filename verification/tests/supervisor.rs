use prism::config::{Facet, FacetLimits};
use prism::gate::Gate;
use prism::supervisor::{facet_scope_name, launch_argv, limit_properties, unit_name, FacetStatus, Supervisor};

fn facet() -> Facet {
    Facet {
        id: "comfyui".into(),
        name: "ComfyUI".into(),
        command: vec!["/opt/comfy/run.sh".into(), "--listen".into()],
        cwd: Some("/opt/comfy".to_string()),
        limits: FacetLimits::default(),
        enabled_if: Gate::default(),
        pty: false,
        expose: None,
        graceful: None,
        offloads_to_ram: false,
    }
}

#[test]
fn unit_names_are_namespaced() {
    assert_eq!(unit_name("comfyui"), "prism-comfyui.service");
}

#[test]
fn unset_limits_produce_no_properties() {
    assert!(limit_properties(&FacetLimits::default()).is_empty());
}

#[test]
fn only_set_limits_are_rendered() {
    let limits = FacetLimits {
        swap_max: Some("6G".into()),
        ..Default::default()
    };
    assert_eq!(limit_properties(&limits), vec!["MemorySwapMax=6G"]);
}

#[test]
fn all_limits_render_to_systemd_property_names() {
    let limits = FacetLimits {
        memory_high: Some("22G".into()),
        memory_max: Some("26G".into()),
        swap_max: Some("6G".into()),
    };
    assert_eq!(
        limit_properties(&limits),
        vec!["MemoryHigh=22G", "MemoryMax=26G", "MemorySwapMax=6G"]
    );
}

#[test]
fn launch_argv_is_well_formed() {
    let argv = launch_argv(&facet());
    assert_eq!(argv[0], "systemd-run");
    assert!(argv.contains(&"--user".to_string()));
    assert!(argv.contains(&"--unit=prism-comfyui.service".to_string()));
    assert!(argv.contains(&"--property=MemoryAccounting=yes".to_string()));
    assert!(argv.contains(&"--working-directory=/opt/comfy".to_string()));
}

#[test]
fn command_follows_the_double_dash_separator() {
    // Without `--`, a workload flag like `--listen` would be parsed by
    // systemd-run itself rather than passed through.
    let argv = launch_argv(&facet());
    let sep = argv.iter().position(|a| a == "--").expect("has separator");
    assert_eq!(&argv[sep + 1..], &["/opt/comfy/run.sh", "--listen"]);
}

#[test]
fn facet_without_cwd_omits_working_directory() {
    let mut f = facet();
    f.cwd = None;
    let argv = launch_argv(&f);
    assert!(!argv.iter().any(|a| a.starts_with("--working-directory")));
}

#[test]
fn limits_appear_before_the_separator() {
    let mut f = facet();
    f.limits.memory_max = Some("26G".into());
    let argv = launch_argv(&f);
    let sep = argv.iter().position(|a| a == "--").unwrap();
    let prop = argv
        .iter()
        .position(|a| a == "--property=MemoryMax=26G")
        .expect("limit present");
    assert!(prop < sep, "properties must precede the command");
}

#[test]
fn status_of_nonexistent_facet_is_stopped() {
    // What `systemctl is-active` prints of a unit that it does not know.
    assert_eq!(Supervisor::new().status(Some("inactive\n")), FacetStatus::Stopped);
    assert_eq!(Supervisor::new().status(None), FacetStatus::Stopped);
}

#[test]
fn cgroup_lookup_of_nonexistent_facet_is_none() {
    let s = Supervisor::new();
    assert!(s.cgroup_path("\n").is_none());
    assert!(s.memory_current_kb("").is_none());
}

#[test]
fn killing_a_stopped_facet_errors_rather_than_targeting_nothing() {
    // Must not silently succeed: a kill that hits no cgroup is a failure to
    // report, not a job done.
    assert!(Supervisor::new().kill("\n").is_none());
}

#[test]
fn a_running_facet_is_told_from_a_failed_one() {
    let s = Supervisor::new();
    assert_eq!(s.status(Some("active\n")), FacetStatus::Running);
    assert_eq!(s.status(Some("activating\n")), FacetStatus::Running);
    assert!(matches!(s.status(Some("failed\n")), FacetStatus::Failed(_)));
}

#[test]
fn a_kill_is_aimed_at_the_whole_group() {
    let s = Supervisor::new();
    assert_eq!(
        s.kill("/user.slice/prism-comfyui.service\n"),
        Some("/sys/fs/cgroup/user.slice/prism-comfyui.service/cgroup.kill".to_string())
    );
    assert_eq!(
        s.cgroup_path("/user.slice/prism-comfyui.service\n"),
        Some("/sys/fs/cgroup/user.slice/prism-comfyui.service".to_string())
    );
}

#[test]
fn a_charge_is_read_in_kilobytes() {
    let s = Supervisor::new();
    assert_eq!(s.memory_current_kb("10485760\n"), Some(10_240));
    assert_eq!(s.memory_swap_kb("2048\n"), Some(2));
    assert_eq!(s.memory_swap_kb("max\n"), None);
}

#[test]
fn stopping_and_limiting_name_the_unit() {
    let s = Supervisor::new();
    assert_eq!(s.stop("comfyui"), vec!["stop", "prism-comfyui.service"]);
    assert!(s.set_limits("comfyui", &FacetLimits::default()).is_none());
    let limits = FacetLimits { memory_max: Some("26G".to_string()), ..Default::default() };
    assert_eq!(
        s.set_limits("comfyui", &limits).unwrap(),
        vec!["set-property", "--runtime", "prism-comfyui.service", "MemoryMax=26G"]
    );
    assert_eq!(s.start(&facet()), launch_argv(&facet()));
}

#[test]
fn a_scope_is_named_apart_from_a_service() {
    assert_eq!(facet_scope_name("comfyui"), "prism-facet-comfyui.scope");
}
