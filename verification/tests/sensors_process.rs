use prism::sensors::process::{find, process_of, render_cmdline, rss_kb, top_by_rss, total_rss_kb, ProcInfo, RankedProc};

#[test]
fn renders_nul_separated_cmdline() {
    assert_eq!(render_cmdline(b"qs\0-p\0/path/killDialog.qml\0"), "qs -p /path/killDialog.qml");
}

#[test]
fn renders_cmdline_without_trailing_nul() {
    assert_eq!(render_cmdline(b"sleep\010"), "sleep 10");
}

#[test]
fn single_argument_survives() {
    assert_eq!(render_cmdline(b"init\0"), "init");
}

#[test]
fn scan_sees_this_test_process() {
    let p = process_of("4242", b"target/debug/tests\0--nocapture\0").unwrap();
    assert_eq!(p.pid, 4242);
    assert_eq!(p.cmdline, "target/debug/tests --nocapture");
    assert!(process_of("self", b"x\0").is_none());
    assert!(process_of("4243", b"").is_none(), "a kernel thread has no command line");
}

#[test]
fn rss_of_self_is_nonzero() {
    assert_eq!(rss_kb("Name:\tsh\nVmRSS:\t    5120 kB\nThreads:\t1\n"), Some(5120));
}

#[test]
fn rss_of_impossible_pid_is_none() {
    assert!(rss_kb("").is_none());
}

#[test]
fn matching_processes_are_found_in_order() {
    let table = vec![
        ProcInfo { pid: 1, cmdline: "init".to_string() },
        ProcInfo { pid: 7, cmdline: "qs -p a".to_string() },
        ProcInfo { pid: 9, cmdline: "qs -p b".to_string() },
    ];
    let found: Vec<u32> = find(&table, |s: &str| s.starts_with("qs")).iter().map(|p| p.pid).collect();
    assert_eq!(found, vec![7, 9]);
}

#[test]
fn unknown_sizes_count_for_nothing() {
    assert_eq!(total_rss_kb(&vec![Some(10), None, Some(5)]), Some(15));
    assert_eq!(total_rss_kb(&vec![]), Some(0));
}

fn ranked(pid: u32, rss_kb: u64) -> RankedProc {
    RankedProc { pid, comm: "c".to_string(), cmdline: "c".to_string(), rss_kb }
}

#[test]
fn the_largest_come_first_and_noise_is_left_out() {
    let all = vec![ranked(1, 100), ranked(2, 5000), ranked(3, 9000), ranked(4, 2000)];
    let top: Vec<u32> = top_by_rss(&all, 2).iter().map(|p| p.pid).collect();
    assert_eq!(top, vec![3, 2]);
    let every: Vec<u32> = top_by_rss(&all, 10).iter().map(|p| p.pid).collect();
    assert_eq!(every, vec![3, 2, 4]);
}
