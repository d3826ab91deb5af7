use prism::action::{alive, gone, next_step, stubborn, Next};
use prism::ui::{cache_control, index, mime};
use prism::workspace::{check, judge, path, stored, temp_path, Unfit, MAX_BYTES};

#[test]
fn self_is_alive() {
    assert!(alive(Some("4242 (tests) R 1 4242 4242 0")));
    assert!(alive(Some("4242 (a) Z) S 1 4242")), "a name may hold brackets");
}

#[test]
fn impossible_pid_is_not_alive() {
    assert!(!alive(None));
    assert!(!alive(Some("4242 (dead) Z 1 4242")), "what is only waiting to be reaped is gone");
}

#[test]
fn terminate_reports_already_dead_pids_as_gone() {
    assert_eq!(gone(&vec![0x7FFF_FFF0], &vec![false]), vec![0x7FFF_FFF0]);
}

#[test]
fn every_process_is_either_gone_or_stubborn() {
    let pids = vec![3, 5, 8];
    let living = vec![true, false, true];
    assert_eq!(stubborn(&pids, &living), vec![3, 8]);
    assert_eq!(gone(&pids, &living), vec![5]);
}

#[test]
fn the_shell_is_served_uncached() {
    assert_eq!(cache_control("shell.html"), "no-cache");
    assert_eq!(index(), "shell.html");
    assert_ne!(cache_control("vendor/xterm.js"), "no-cache");
}

#[test]
fn assets_are_served_as_what_they_are() {
    assert_eq!(mime("shell.html"), "text/html; charset=utf-8");
    assert!(mime("vendor/xterm.js").contains("javascript"));
    assert!(mime("vendor/xterm.css").contains("text/css"));
}

#[test]
fn state_lives_beside_the_other_host_state() {
    assert!(path("/var/lib/prism").ends_with("workspace.json"));
    assert_eq!(path("/var/lib/prism"), "/var/lib/prism/workspace.json");
    assert_eq!(temp_path("/var/lib/prism"), "/var/lib/prism/workspace.json.tmp");
}

#[test]
fn the_size_ceiling_is_generous_for_layout_but_not_a_database() {
    // Layout is a few kilobytes; this is room to spare without letting the
    // endpoint fill a disk that is already 94% full.
    assert!(MAX_BYTES >= 64 * 1024);
    assert!(MAX_BYTES <= 1024 * 1024);
}

#[test]
fn only_what_is_json_and_small_enough_is_kept() {
    assert_eq!(judge("{\"windows\":[]}"), None);
    assert_eq!(judge("{"), Some(Unfit::NotJson));
    assert_eq!(judge(&" ".repeat(MAX_BYTES + 1)), Some(Unfit::TooLarge));
    assert_eq!(check(MAX_BYTES, true), None);
    assert_eq!(check(MAX_BYTES + 1, true), Some(Unfit::TooLarge));
    assert_eq!(check(5, false), Some(Unfit::NotJson));
    assert_eq!(Unfit::TooLarge.status(), 413);
    assert_eq!(Unfit::NotJson.status(), 400);
    assert_ne!(Unfit::TooLarge.message(), Unfit::NotJson.message());
}

#[test]
fn a_state_that_is_kept_is_given_back() {
    let body = "{\"windows\":[{\"x\":12,\"title\":\"a \\\"b\\\"\"}],\"on\":true}";
    assert_eq!(judge(body), None);
    let v = stored(Some(body)).unwrap();
    assert_eq!(v["windows"][0]["x"].as_u64(), Some(12));
    assert_eq!(v["windows"][0]["title"].as_str(), Some("a \"b\""));
    assert_eq!(v["on"].as_bool(), Some(true));
}

#[test]
fn a_state_that_cannot_be_read_is_no_state() {
    assert!(stored(None).is_none());
    for bad in ["", "{", "windows", "{} {}"] {
        assert_eq!(judge(bad), Some(Unfit::NotJson));
        assert!(stored(Some(bad)).is_none(), "{bad}");
    }
}

#[test]
fn killing_waits_for_the_deadline() {
    let pids = vec![3, 5, 8];
    assert!(matches!(next_step(&pids, &vec![true, false, true], 10, 11), Next::Look));
    match next_step(&pids, &vec![true, false, true], 11, 11) {
        Next::Kill(left) => assert_eq!(left, vec![3, 8]),
        other => panic!("{other:?}"),
    }
    assert!(matches!(next_step(&pids, &vec![false, false, false], 10, 11), Next::Settled));
    assert!(matches!(next_step(&pids, &vec![false, false, false], 99, 11), Next::Settled));
    assert!(matches!(next_step(&Vec::new(), &Vec::new(), 0, 11), Next::Settled));
}
