use prism::config::{Facet, FacetLimits};
use prism::facets_api::{missing, start, view, FacetShown, Start};
use prism::gate::{Gate, Probe};
use prism::supervisor::FacetStatus;

/// A host that has nothing of what a gate may ask for.
const BARE: Probe = Probe { binary: false, path: false, process: false };

/// A facet that has not been started.
fn shown(f: &Facet) -> FacetShown {
    view(f, &FacetStatus::Stopped, None, None, BARE)
}

fn facet(id: &str) -> Facet {
    Facet {
        id: id.into(),
        name: "Test".into(),
        command: vec!["sleep".into(), "60".into()],
        cwd: None,
        limits: FacetLimits::default(),
        enabled_if: Gate::default(),
        pty: false,
        expose: None,
        graceful: None,
        offloads_to_ram: false,
    }
}

#[test]
fn a_stopped_facet_reports_no_memory() {
    // A stopped facet has no cgroup; reporting 0 would look like a running
    // workload using nothing.
    let v = shown(&facet("nonexistent-xyzzy"));
    assert_eq!(v.state, "stopped");
    assert!(v.memory_mib.is_none());
    assert!(v.swap_mib.is_none());
}

#[test]
fn an_unmet_gate_marks_the_facet_unavailable_with_a_reason() {
    let mut f = facet("gated");
    f.enabled_if = Gate {
        binary: Some("definitely-not-real-xyzzy".into()),
        ..Default::default()
    };
    let v = shown(&f);
    assert!(!v.available);
    assert!(v.unavailable_because.unwrap().contains("not on PATH"));
}

#[test]
fn an_ungated_facet_is_available() {
    assert!(shown(&facet("plain")).available);
}

#[test]
fn limits_round_trip_through_the_view() {
    let l = FacetLimits {
        memory_high: Some("22G".into()),
        memory_max: None,
        swap_max: Some("6G".into()),
    };
    let mut f = facet("limited");
    f.limits = l;
    let v = shown(&f).limits;
    assert_eq!(v.memory_high.as_deref(), Some("22G"));
    assert_eq!(v.memory_max, None);
    assert_eq!(v.swap_max.as_deref(), Some("6G"));
}

#[test]
fn a_pty_facet_is_marked_as_such_so_the_ui_can_open_a_terminal() {
    let mut f = facet("interactive");
    f.pty = true;
    assert!(shown(&f).pty);
    assert!(!shown(&facet("headless")).pty);
}

#[test]
fn the_command_is_shown_so_the_operator_knows_what_will_run() {
    assert_eq!(shown(&facet("x")).command, "sleep 60");
}

#[test]
fn a_running_facet_reports_its_memory() {
    let v = view(&facet("x"), &FacetStatus::Running, Some(2048), Some(1024), BARE);
    assert_eq!(v.state, "running");
    assert_eq!((v.memory_mib, v.swap_mib), (Some(2), Some(1)));
    let v = view(&facet("x"), &FacetStatus::Failed("exit 1".to_string()), None, None, BARE);
    assert_eq!(v.state, "failed");
    assert_eq!(v.detail.as_deref(), Some("exit 1"));
    assert_eq!(view(&facet("x"), &FacetStatus::Foreign, None, None, BARE).state, "foreign");
}

#[test]
fn nothing_starts_under_pressure_or_behind_a_closed_door() {
    let f = facet("x");
    assert!(matches!(start(&f, BARE, "red", &FacetStatus::Stopped), Start::Refused(_)));
    assert!(matches!(start(&f, BARE, "black", &FacetStatus::Stopped), Start::Refused(_)));
    assert!(matches!(start(&f, BARE, "green", &FacetStatus::Running), Start::Refused(_)));
    let mut gated = facet("gated");
    gated.enabled_if = Gate { path: Some("/nonexistent".into()), ..Default::default() };
    assert!(matches!(start(&gated, BARE, "green", &FacetStatus::Stopped), Start::Refused(_)));
}

#[test]
fn a_headless_facet_is_a_unit_and_an_interactive_one_a_terminal() {
    match start(&facet("x"), BARE, "amber", &FacetStatus::Stopped) {
        Start::Unit(argv) => assert_eq!(&argv[argv.len() - 2..], &["sleep", "60"]),
        other => panic!("{other:?}"),
    }
    let mut f = facet("x");
    f.pty = true;
    assert!(matches!(start(&f, BARE, "green", &FacetStatus::Stopped), Start::Terminal));
    assert_eq!(missing().status, 404);
}
