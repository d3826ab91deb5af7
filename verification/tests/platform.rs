use prism::platform::{capabilities, Capabilities, LinuxPressure, PressureSensor, ProcessSupervisor};
use prism::sensors::memory::{MemorySnapshot, PsiRaw};
use prism::supervisor::Supervisor;

fn there(path: &str) -> bool {
    std::path::Path::new(path).exists()
}

fn this_host() -> Capabilities {
    capabilities(
        there("/sys/fs/cgroup/cgroup.controllers"),
        there("/proc/pressure/memory"),
        there("/sys/block/zram0"),
        false,
    )
}

#[test]
fn this_host_reports_its_capabilities() {
    let c = this_host();
    assert_eq!(c.name, "linux");
    assert!(c.pty);
}

#[test]
fn capabilities_are_detected_rather_than_assumed() {
    // A container without cgroup delegation, or a kernel without PSI, must
    // report so rather than have Prism act as if containment worked.
    let c = this_host();
    assert_eq!(c.cgroups, there("/sys/fs/cgroup/cgroup.controllers"));
    assert_eq!(c.psi, there("/proc/pressure/memory"));
    assert!(capabilities(true, false, true, true).compressed_swap_accounting);
    assert!(capabilities(true, false, false, true).user_services);
}

fn assert_impl<T: ProcessSupervisor>(_: &T) {}

#[test]
fn the_supervisor_satisfies_the_trait() {
    // The point of the seam: a second implementation is additive.
    assert_impl(&Supervisor::new());
}

#[test]
fn the_pressure_sensor_reads_this_machine() {
    let mut p = LinuxPressure::new();
    let _ = p.stall_full(Some(PsiRaw::default())); // first sample establishes a baseline
    let memory = MemorySnapshot { honest_headroom_kb: 1500, ..Default::default() };
    assert!(p.honest_headroom_kb(Some(&memory)) > 0, "a running machine has some headroom");
    assert_eq!(p.honest_headroom_kb(None), 0);
}

#[test]
fn stall_is_a_fraction_not_a_counter() {
    let mut p = LinuxPressure::new();
    let s = p.stall_full(Some(PsiRaw { some_total_us: 9_000_000, full_total_us: 8_000_000 }));
    assert!((0..=1_000_000_000).contains(&s), "stall must be a fraction of wall time, got {s}");
    assert_eq!(p.stall_full(None), 0);
}
