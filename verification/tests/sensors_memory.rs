use prism::sensors::memory::{
    field, is_zram_name, read_psi, sample, sample_psi, swap_devices, zram_totals, MemorySnapshot, PsiRaw, PsiTracker, Ratio,
    ZramTotals,
};

/// One second, in nanoseconds.
const SECOND: u64 = 1_000_000_000;

const MEMINFO: &str = "\
MemTotal:       32000000 kB
MemFree:         1000000 kB
MemAvailable:    2000000 kB
SwapTotal:      48000000 kB
SwapFree:       32000000 kB
";

#[test]
fn parses_meminfo_fields() {
    assert_eq!(field(MEMINFO, "MemTotal:"), Some(32_000_000));
    assert_eq!(field(MEMINFO, "MemAvailable:"), Some(2_000_000));
    assert_eq!(field(MEMINFO, "SwapFree:"), Some(32_000_000));
    assert_eq!(field(MEMINFO, "Nonexistent:"), None);
}

#[test]
fn meminfo_prefix_is_not_confused_by_similar_keys() {
    // "MemFree:" must not match "MemAvailable:" or vice versa.
    assert_eq!(field(MEMINFO, "MemFree:"), Some(1_000_000));
}

#[test]
fn ratio_ignores_undersized_samples() {
    let tiny = ZramTotals {
        orig_bytes: 1024,
        compr_bytes: 512,
        mem_used_kb: 1,
    };
    assert!(tiny.ratio().is_none());

    let real = ZramTotals {
        orig_bytes: 1024 * 1024 * 1024,
        compr_bytes: 512 * 1024 * 1024,
        mem_used_kb: 0,
    };
    let ratio = real.ratio().unwrap();
    assert_eq!(ratio.orig, 2 * ratio.compr);
}

#[test]
fn psi_tracker_needs_two_samples() {
    let mut tracker = PsiTracker::new();
    let t0: u64 = 3 * SECOND;
    assert!(tracker.update_at(PsiRaw::default(), t0).is_none());
    assert!(
        tracker
            .update_at(
                PsiRaw {
                    some_total_us: 100,
                    full_total_us: 50,
                },
                t0 + SECOND
            )
            .is_some()
    );
}

#[test]
fn psi_stall_is_a_fraction_of_elapsed_time() {
    let mut tracker = PsiTracker::new();
    let t0: u64 = 3 * SECOND;
    tracker.update_at(PsiRaw::default(), t0);
    // Half a second of stall across a one-second interval is 50%.
    let stall = tracker
        .update_at(
            PsiRaw {
                some_total_us: 500_000,
                full_total_us: 250_000,
            },
            t0 + SECOND,
        )
        .unwrap();
    assert_eq!(stall.some, 500_000_000);
    assert_eq!(stall.full, 250_000_000);
}

#[test]
fn psi_stall_is_clamped_to_unit_interval() {
    let mut tracker = PsiTracker::new();
    let t0: u64 = 3 * SECOND;
    tracker.update_at(PsiRaw::default(), t0);
    // A counter jump larger than the interval must not exceed 100%.
    let stall = tracker
        .update_at(
            PsiRaw {
                some_total_us: u64::MAX / 2,
                full_total_us: u64::MAX / 2,
            },
            t0 + SECOND,
        )
        .unwrap();
    assert!(stall.some <= SECOND && stall.full <= SECOND);
}

#[test]
fn zero_interval_yields_no_reading_rather_than_dividing_by_zero() {
    let mut tracker = PsiTracker::new();
    let t0: u64 = 3 * SECOND;
    tracker.update_at(PsiRaw::default(), t0);
    assert!(tracker.update_at(PsiRaw::default(), t0).is_none());
}

#[test]
fn phantom_headroom_is_the_gap_between_naive_and_honest() {
    let snap = MemorySnapshot {
        available_kb: 1000,
        swap_free_kb: 1000,
        honest_headroom_kb: 1500,
        ..Default::default()
    };
    assert_eq!(snap.phantom_headroom_kb(), 500);
}

const PSI: &str = "\
some avg10=0.00 avg60=0.00 avg300=0.00 total=123456
full avg10=0.00 avg60=0.00 avg300=0.00 total=65432
";

#[test]
fn pressure_counters_are_read_from_their_totals() {
    let raw = read_psi(PSI);
    assert_eq!(raw.some_total_us, 123_456);
    assert_eq!(raw.full_total_us, 65_432);
    assert_eq!(sample_psi(Some(PSI)).unwrap().full_total_us, 65_432);
    assert!(sample_psi(None).is_none());
}

#[test]
fn swap_devices_are_told_apart_by_name() {
    let table = "Filename\tType\tSize\tUsed\tPriority\n\
                 /dev/zram0 partition 16000000 6000000 100\n\
                 /dev/nvme0n1p3 partition 32000000 2000000 -2\n";
    let devices = swap_devices(table);
    assert_eq!(devices.len(), 2);
    assert!(devices[0].is_zram && devices[0].free_kb == 10_000_000);
    assert!(!devices[1].is_zram && devices[1].free_kb == 30_000_000);
}

#[test]
fn compressed_swap_yields_only_its_net_room() {
    // At two to one, free compressed swap costs half of itself in RAM, so the
    // net room is half of what is free; what the table does not list counts
    // as compressed too.
    let swaps = "Filename Type Size Used Priority\n/dev/zram0 partition 16000000 6000000 100\n";
    let zram = ZramTotals { orig_bytes: 1 << 30, compr_bytes: 1 << 29, mem_used_kb: 7 };
    let m = sample(MEMINFO, swaps, zram).unwrap();
    assert_eq!(m.total_kb, 32_000_000);
    assert_eq!(m.zram_cost_kb, 7);
    assert!(matches!(m.compression_ratio, Some(Ratio { .. })));
    assert_eq!(m.honest_headroom_kb, 2_000_000 + 16_000_000);
    assert_eq!(m.phantom_headroom_kb(), 16_000_000);
}

#[test]
fn a_missing_field_reads_as_zero() {
    let zram = ZramTotals { orig_bytes: 0, compr_bytes: 0, mem_used_kb: 0 };
    let m = sample("MemTotal: 5 kB\n", "", zram).unwrap();
    assert_eq!((m.total_kb, m.available_kb, m.honest_headroom_kb), (5, 0, 0));
    assert!(m.compression_ratio.is_none());
}

#[test]
fn devices_are_summed() {
    let stats = vec!["2048 1024 4096 0 0 0 0".to_string(), "not a stat".to_string(), "10 5 2048".to_string()];
    let t = zram_totals(&stats).unwrap();
    assert_eq!((t.orig_bytes, t.compr_bytes, t.mem_used_kb), (2058, 1029, 6));
}

#[test]
fn the_running_clock_gives_no_reading_at_the_first_look() {
    let mut tracker = PsiTracker::new();
    assert!(tracker.update(PsiRaw::default()).is_none());
}

#[test]
fn a_zram_device_is_known_by_its_name() {
    assert!(is_zram_name("zram0") && is_zram_name("zram12"));
    assert!(!is_zram_name("sda") && !is_zram_name("xzram0") && !is_zram_name("zra"));
}
