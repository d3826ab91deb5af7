use prism::gate::{binary_candidates, comm_is, is_pid_name, Gate, GateOutcome, Probe};

/// What this host has of the things that a gate asks for.
fn host(gate: &Gate) -> Probe {
    Probe {
        binary: gate
            .binary
            .as_ref()
            .map(|b| binary_candidates(b, Some("/usr/bin:/bin")).iter().any(|p| std::path::Path::new(p).exists()))
            .unwrap_or(false),
        path: gate.path.as_ref().map(|p| std::path::Path::new(p).exists()).unwrap_or(false),
        process: false,
    }
}

fn why(outcome: GateOutcome) -> String {
    match outcome {
        GateOutcome::Satisfied => "satisfied".to_string(),
        GateOutcome::Blocked(why) => why,
    }
}

#[test]
fn empty_gate_is_satisfied() {
    let gate = Gate::default();
    assert!(gate.satisfied(host(&gate)));
}

#[test]
fn explicit_disable_wins() {
    let gate = Gate {
        enabled: Some(false),
        ..Default::default()
    };
    assert!(!gate.satisfied(host(&gate)));
}

#[test]
fn missing_binary_blocks() {
    let gate = Gate {
        binary: Some("definitely-not-a-real-binary-xyzzy".into()),
        ..Default::default()
    };
    assert!(!gate.satisfied(host(&gate)));
}

#[test]
fn present_path_passes() {
    let gate = Gate {
        path: Some("/proc/meminfo".into()),
        ..Default::default()
    };
    assert!(gate.satisfied(host(&gate)));
}

#[test]
fn absent_path_blocks() {
    let gate = Gate {
        path: Some("/nonexistent/xyzzy".into()),
        ..Default::default()
    };
    assert!(!gate.satisfied(host(&gate)));
}

#[test]
fn a_blocked_gate_says_why() {
    let none = Probe { binary: false, path: false, process: false };
    let gate = Gate { binary: Some("hyprctl".to_string()), ..Default::default() };
    assert_eq!(why(gate.evaluate(none)), "binary `hyprctl` not on PATH");
    let gate = Gate { path: Some("/opt/x".to_string()), ..Default::default() };
    assert_eq!(why(gate.evaluate(none)), "path `/opt/x` absent");
    let gate = Gate { process: Some("Hyprland".to_string()), ..Default::default() };
    assert_eq!(why(gate.evaluate(none)), "process `Hyprland` not running");
    let gate = Gate { enabled: Some(false), ..Default::default() };
    assert_eq!(why(gate.evaluate(none)), "explicitly disabled");
}

#[test]
fn all_conditions_must_hold() {
    let gate = Gate { binary: Some("a".to_string()), path: Some("/b".to_string()), ..Default::default() };
    assert!(gate.satisfied(Probe { binary: true, path: true, process: false }));
    assert!(!gate.satisfied(Probe { binary: true, path: false, process: true }));
    assert!(!gate.satisfied(Probe { binary: false, path: true, process: true }));
}

#[test]
fn a_bare_name_is_looked_for_on_the_search_path_and_a_path_is_used_as_it_is() {
    assert_eq!(binary_candidates("qs", Some("/usr/bin::/bin")), vec!["/usr/bin/qs", "/bin/qs"]);
    assert_eq!(binary_candidates("/opt/qs", Some("/usr/bin")), vec!["/opt/qs"]);
    assert!(binary_candidates("qs", None).is_empty());
}

#[test]
fn processes_are_told_by_their_trimmed_name() {
    assert!(comm_is("Hyprland\n", "Hyprland"));
    assert!(!comm_is("Hyprland2\n", "Hyprland"));
    assert!(is_pid_name("1234"));
    assert!(!is_pid_name("self"));
}
