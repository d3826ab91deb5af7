use prism::gate::{Gate, Probe};
use prism::watchdog::storm::{
    builtin_rules, StormAction, StormDetector, StormRule, StormTrigger, FLAP_LIMIT, FLAP_WINDOW, RATE_WINDOW,
};

/// A host that has nothing of what a gate may ask for.
const BARE: Probe = Probe { binary: false, path: false, process: false };

/// One second, in nanoseconds.
const SECOND: u64 = 1_000_000_000;

fn rule(id: &str, max_count: usize, rate: Option<i64>) -> StormRule {
    StormRule {
        id: id.into(),
        pattern: ".*".into(),
        max_count,
        max_spawns_per_min: rate,
        action: StormAction::KillMatched,
        enabled_if: Gate::default(),
        cooldown_secs: 0,
    }
}

#[test]
fn first_pass_only_primes_and_never_fires_on_rate() {
    let (mut det, _) = StormDetector::new(vec![rule("r", 100, Some(1))], &vec![BARE]);
    // Twenty pre-existing processes must not look like twenty spawns.
    let verdicts = det.evaluate(&vec![(1..=20).collect()]);
    assert!(verdicts.is_empty(), "baseline pass must not trip the rule");
}

#[test]
fn count_threshold_fires() {
    let (mut det, _) = StormDetector::new(vec![rule("r", 2, None)], &vec![BARE]);
    det.evaluate(&vec![vec![1]]);
    let v = det.evaluate(&vec![vec![1, 2, 3]]);
    assert_eq!(v.len(), 1);
    assert_eq!(v[0].trigger, StormTrigger::CountExceeded);
    assert_eq!(v[0].count, 3);
}

#[test]
fn count_at_threshold_does_not_fire() {
    let (mut det, _) = StormDetector::new(vec![rule("r", 2, None)], &vec![BARE]);
    det.evaluate(&vec![vec![1]]);
    assert!(det.evaluate(&vec![vec![1, 2]]).is_empty());
}

#[test]
fn rate_threshold_fires_below_count_threshold() {
    // The killDialog case: count stayed low early on, but generations kept
    // arriving. Rate is what catches it in the first seconds.
    let (mut det, _) = StormDetector::new(vec![rule("r", 1000, Some(3))], &vec![BARE]);
    det.evaluate(&vec![vec![]]);
    let v = det.evaluate(&vec![vec![1, 2, 3, 4]]);
    assert_eq!(v.len(), 1);
    assert_eq!(v[0].trigger, StormTrigger::RateExceeded);
}

#[test]
fn stable_process_set_never_fires_on_rate() {
    let (mut det, _) = StormDetector::new(vec![rule("r", 1000, Some(1))], &vec![BARE]);
    for _ in 0..5 {
        assert!(det.evaluate(&vec![(1..=50).collect()]).is_empty());
    }
}

#[test]
fn cooldown_suppresses_repeat_actions() {
    let mut r = rule("r", 1, None);
    r.cooldown_secs = 3600;
    let (mut det, _) = StormDetector::new(vec![r], &vec![BARE]);
    det.evaluate(&vec![vec![]]);
    assert_eq!(det.evaluate(&vec![vec![1, 2, 3]]).len(), 1);
    assert!(det.evaluate(&vec![vec![1, 2, 3]]).is_empty());
}

#[test]
fn flap_protection_demotes_to_notify() {
    let (mut det, _) = StormDetector::new(vec![rule("r", 1, None)], &vec![BARE]);
    det.evaluate(&vec![vec![]]);
    for _ in 0..FLAP_LIMIT {
        let v = det.evaluate(&vec![vec![1, 2, 3]]);
        assert!(matches!(v[0].action, StormAction::KillMatched));
        assert!(!v[0].suppressed);
    }
    let v = det.evaluate(&vec![vec![1, 2, 3]]);
    assert!(v[0].suppressed, "should stop acting after repeated attempts");
    assert!(matches!(v[0].action, StormAction::Notify));
}

#[test]
fn unmet_gate_drops_rule() {
    let mut r = rule("r", 1, None);
    r.enabled_if = Gate {
        binary: Some("definitely-not-real-xyzzy".into()),
        ..Default::default()
    };
    let (det, skipped) = StormDetector::new(vec![r], &vec![BARE]);
    assert_eq!(det.rule_count(), 0);
    assert_eq!(skipped.len(), 1);
}

#[test]
fn invalid_regex_is_reported_not_panicked() {
    let mut r = rule("bad", 1, None);
    r.pattern = "((((".into();
    let (det, skipped) = StormDetector::new(vec![r], &vec![BARE]);
    assert_eq!(det.rule_count(), 0);
    assert!(skipped[0].contains("invalid pattern"));
}

#[test]
fn builtin_pattern_matches_the_real_incident_cmdline() {
    let rules = builtin_rules();
    let ready = Probe { binary: true, path: true, process: true };
    let hosts = vec![ready; rules.len()];
    let (det, skipped) = StormDetector::new(rules, &hosts);
    assert!(skipped.is_empty());
    let table = vec![
        (11, "/usr/bin/qs -p /home/raahats/.config/quickshell/ii/killDialog.qml".to_string()),
        // Must not match the legitimate shell instance.
        (12, "qs -c ii".to_string()),
    ];
    assert_eq!(det.matching(&table)[0], vec![11]);
}

#[test]
fn only_matching_command_lines_are_counted() {
    let mut r = rule("r", 1, None);
    r.pattern = "^worker-[0-9]+$".into();
    let (det, _) = StormDetector::new(vec![r], &vec![BARE]);
    let table = vec![
        (1, "worker-1".to_string()),
        (2, "worker-x".to_string()),
        (3, "a worker-3".to_string()),
        (4, "worker-44".to_string()),
    ];
    assert_eq!(det.matching(&table), vec![vec![1, 4]]);
}

#[test]
fn a_verdict_names_its_processes_and_says_what_it_saw() {
    let (mut det, _) = StormDetector::new(vec![rule("r", 1, None)], &vec![BARE]);
    det.evaluate_at(&vec![vec![]], 0);
    let v = det.evaluate_at(&vec![vec![7, 8]], SECOND);
    assert_eq!(v[0].pids, vec![7, 8]);
    assert_eq!(v[0].rule_id, "r");
    assert_eq!(v[0].spawns_per_min, 2);
    assert!(v[0].describe().contains("r"));
}

#[test]
fn spawns_are_forgotten_after_a_minute() {
    let (mut det, _) = StormDetector::new(vec![rule("r", 1000, Some(2))], &vec![BARE]);
    det.evaluate_at(&vec![vec![]], 0);
    assert!(det.evaluate_at(&vec![vec![1, 2]], SECOND).is_empty());
    let later = (RATE_WINDOW + 2) * SECOND;
    assert!(det.evaluate_at(&vec![vec![1, 2, 3, 4]], later).is_empty());
}

#[test]
fn a_rule_acts_again_once_its_flapping_is_past() {
    let (mut det, _) = StormDetector::new(vec![rule("r", 1, None)], &vec![BARE]);
    let seen = vec![vec![1, 2, 3]];
    det.evaluate_at(&vec![vec![]], 0);
    for _ in 0..FLAP_LIMIT {
        det.evaluate_at(&seen, SECOND);
    }
    assert!(det.evaluate_at(&seen, 2 * SECOND)[0].suppressed);
    assert!(!det.evaluate_at(&seen, (FLAP_WINDOW + 2) * SECOND)[0].suppressed);
}

#[test]
fn spawns_add_up_over_the_passes_of_a_minute() {
    let other = rule("other", 1000, Some(1000));
    let (mut det, _) = StormDetector::new(vec![rule("r", 1000, Some(3)), other], &vec![BARE, BARE]);
    let mut pass = |pids: Vec<u32>, at: u64| det.evaluate_at(&vec![pids, vec![99]], at * SECOND);
    assert!(pass(vec![1, 2, 3, 4, 5], 0).is_empty());
    assert!(pass(vec![1, 6], 10).is_empty());
    // One that goes and comes back appears a second time.
    assert!(pass(vec![6, 2], 20).is_empty());
    assert!(pass(vec![7], 30).is_empty());
    let v = pass(vec![8], 40);
    assert_eq!(v.len(), 1);
    assert_eq!((v[0].trigger, v[0].spawns_per_min, v[0].count), (StormTrigger::RateExceeded, 4, 1));
    // The first newcomer is a minute old by now.
    assert!(pass(vec![8], 70).is_empty());
    assert_eq!(pass(vec![9], 71)[0].spawns_per_min, 4);
}
