use prism::sensors::disk::{default_paths, sample, tightest, usage_of, BlockCounts, MountUsage};

/// A filesystem of a million blocks of 4 KiB, a quarter of them available.
fn counts() -> BlockCounts {
    BlockCounts { frsize: 4096, bsize: 65536, blocks: 1_000_000, bavail: 250_000, files: 1000, ffree: 400 }
}

fn usage(total_kb: u64, available_kb: u64) -> MountUsage {
    MountUsage {
        path: "/test".into(),
        total_kb,
        available_kb,
        inodes_total: 0,
        inodes_free: 0,
    }
}

#[test]
fn used_percentage_is_computed_from_available_not_free() {
    // 100 GiB total, 5 GiB available -> 95% used, matching what `df` shows
    // and what the operator actually experiences.
    let u = usage(100 * 1024 * 1024, 5 * 1024 * 1024);
    assert_eq!(u.used_pct(), 95_000);
}

#[test]
fn empty_filesystem_reports_zero_used() {
    let u = usage(1000, 1000);
    assert_eq!(u.used_pct(), 0);
}

#[test]
fn zero_sized_filesystem_does_not_divide_by_zero() {
    let u = usage(0, 0);
    assert_eq!(u.used_pct(), 0);
    assert_eq!(u.inodes_used_pct(), 0);
}

#[test]
fn filesystems_reporting_no_inodes_are_not_flagged() {
    // btrfs reports f_files = 0; that must read as 0% used, not 100%.
    let u = usage(1000, 500);
    assert_eq!(u.inodes_used_pct(), 0);
}

#[test]
fn inode_pressure_is_detected_independently_of_bytes() {
    let mut u = usage(100 * 1024 * 1024, 90 * 1024 * 1024); // 10% full by bytes
    u.inodes_total = 1000;
    u.inodes_free = 10; // 99% full by inodes
    assert!(u.used_pct() < 15_000);
    assert!(
        u.inodes_used_pct() > 95_000,
        "a filesystem can be empty by bytes and unable to create a file"
    );
}

#[test]
fn tightest_picks_the_worst_mount_not_the_average() {
    let mounts = vec![
        usage(100 * 1024 * 1024, 90 * 1024 * 1024),
        usage(100 * 1024 * 1024, 1024),
        usage(100 * 1024 * 1024, 50 * 1024 * 1024),
    ];
    assert_eq!(tightest(&mounts).unwrap().available_kb, 1024);
}

#[test]
fn tightest_of_nothing_is_none() {
    assert!(tightest(&[]).is_none());
}

#[test]
fn samples_a_real_filesystem() {
    let root = usage_of("/", counts());
    assert_eq!(root.path, "/");
    assert_eq!(root.total_kb, 4_000_000);
    assert_eq!(root.available_kb, 1_000_000);
    assert!(root.available_kb <= root.total_kb);
    assert_eq!(root.available_mib(), 976);
    assert_eq!(root.used_kb(), 3_000_000);
}

#[test]
fn missing_path_yields_none_rather_than_panicking() {
    assert!(sample(vec![("/nonexistent/xyzzy/nope".to_string(), None)]).is_empty());
}

#[test]
fn sample_drops_unreadable_paths() {
    let readings = vec![("/".to_string(), Some(counts())), ("/nonexistent/xyzzy".to_string(), None)];
    assert_eq!(sample(readings).len(), 1);
}

#[test]
fn default_paths_include_root_and_are_sampleable() {
    let paths = default_paths(Some("/home/u"));
    assert!(paths.contains(&"/".to_string()));
    assert!(paths.contains(&"/home/u".to_string()));
    let readings = paths.into_iter().map(|p| (p, Some(counts()))).collect();
    assert!(!sample(readings).is_empty());
}

#[test]
fn the_block_size_stands_in_where_no_fragment_size_is_given() {
    let u = usage_of("/", BlockCounts { frsize: 0, bsize: 512, ..counts() });
    assert_eq!(u.total_kb, 500_000);
}

#[test]
fn a_filesystem_beyond_counting_is_capped() {
    let u = usage_of("/", BlockCounts { frsize: u64::MAX, blocks: 3, ..counts() });
    assert_eq!(u.total_kb, u64::MAX / 1024);
}
