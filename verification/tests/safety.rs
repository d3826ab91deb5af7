use prism::safety::{comm_of, parent_of, Refusal, SafetyGuard};

/// The process that the guard runs in.
const ME: u32 = 4242;

fn guard() -> SafetyGuard {
    SafetyGuard::with_defaults(ME)
}

/// Who is whose parent: the guard's process, its shell, a terminal, init.
fn parents() -> Vec<(u32, u32)> {
    vec![(ME, 4000), (4000, 3000), (3000, 1)]
}

/// Unused but structurally valid. Deliberately *not* `u32::MAX`.
const UNUSED_PID: u32 = 0x7FFF_FFF0;

#[test]
fn rejects_the_value_that_caused_the_outage() {
    let guard = guard();
    assert_eq!(guard.check(u32::MAX, &parents(), None), Err(Refusal::NotASinglePid));
}

#[test]
fn rejects_every_non_single_pid_encoding() {
    let guard = guard();
    // 0 -> our own process group.
    assert_eq!(guard.check(0, &parents(), None), Err(Refusal::NotASinglePid));
    // Anything above i32::MAX wraps negative -> a process group.
    assert_eq!(guard.check(0x8000_0000, &parents(), None), Err(Refusal::NotASinglePid));
    assert_eq!(guard.check(0xFFFF_FFFE, &parents(), None), Err(Refusal::NotASinglePid));
}

#[test]
fn no_input_can_ever_yield_a_non_positive_pid() {
    // Property: whatever a caller passes, an accepted result is always a
    // single real process. This is the invariant the incident violated.
    let guard = guard();
    for candidate in [
        0u32,
        1,
        2,
        i32::MAX as u32,
        i32::MAX as u32 + 1,
        u32::MAX,
        u32::MAX - 1,
        0x8000_0000,
        UNUSED_PID,
    ] {
        if let Ok(pid) = guard.check(candidate, &parents(), None) {
            assert!(pid > 0, "check() returned non-positive pid {pid}");
        }
    }
}

#[test]
fn refuses_init() {
    assert_eq!(guard().check(1, &parents(), None), Err(Refusal::Init));
}

#[test]
fn default_guard_protects_reachability_critical_names() {
    let guard = guard();
    for name in ["sshd", "tailscaled", "Hyprland", "systemd", "prismd"] {
        assert!(
            guard.is_protected_name(name),
            "{name} must be protected: losing it costs remote access"
        );
    }
}

#[test]
fn unused_pid_is_permitted_and_positive() {
    let guard = guard();
    // Not running, but structurally valid — must not be refused as a group.
    assert!(matches!(guard.check(UNUSED_PID, &parents(), None), Ok(p) if p > 0));
}

#[test]
fn refuses_own_pid() {
    assert_eq!(guard().check(ME, &parents(), None), Err(Refusal::SelfPid));
}

#[test]
fn refuses_ancestors() {
    assert_eq!(guard().check(4000, &parents(), None), Err(Refusal::Ancestor));
    assert_eq!(guard().check(3000, &parents(), Some("kitty")), Err(Refusal::Ancestor));
}

#[test]
fn refuses_protected_names() {
    let mut guard = SafetyGuard::new(Vec::new(), ME);
    guard.protect("sleep".to_string());
    assert_eq!(
        guard.check(5000, &parents(), Some("sleep")),
        Err(Refusal::Protected("sleep".into())),
        "a protected name must be refused"
    );
}

#[test]
fn allows_an_ordinary_unrelated_process() {
    let guard = SafetyGuard::new(Vec::new(), ME);
    assert_eq!(guard.check(5000, &parents(), Some("sleep")), Ok(5000));
}

#[test]
fn a_refusal_gives_its_reason() {
    assert_eq!(Refusal::NotASinglePid.reason(), "not a single positive pid (would signal a process group)");
    assert_eq!(Refusal::Init.reason(), "pid 1");
    assert_eq!(Refusal::Protected("sshd".to_string()).reason(), "`sshd` is protected");
}

#[test]
fn a_loop_among_parents_ends_the_climb() {
    let turning = vec![(ME, 4000), (4000, ME)];
    assert_eq!(guard().check(77, &turning, None), Ok(77));
    assert_eq!(guard().check(4000, &turning, None), Err(Refusal::Ancestor));
}

#[test]
fn an_ancestor_is_refused_however_far_up_it_stands() {
    let mut line = vec![(ME, 100_000)];
    for pid in 100_000..100_200 {
        line.push((pid, pid + 1));
    }
    for pid in 100_000..=100_200 {
        assert_eq!(guard().check(pid, &line, None), Err(Refusal::Ancestor), "{pid}");
    }
    assert_eq!(guard().check(100_201, &line, None), Ok(100_201));
}

#[test]
fn a_parent_and_a_name_are_read_from_what_the_kernel_reports() {
    assert_eq!(parent_of("Name:\tsh\nPPid:\t17\nTracerPid:\t0\n"), Some(17));
    assert_eq!(parent_of("Name:\tsh\n"), None);
    assert_eq!(comm_of("sleep\n"), "sleep");
}
