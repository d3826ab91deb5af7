use prism::term::pty::{check_argv, ArgvError, WinSize};
use prism::term::session::{
    login_shell, HasExited, Launch, SessionManager, SpawnError, TermConfig, BROADCAST_DEPTH, LINGER,
};

/// One second, in nanoseconds.
const SECOND: u64 = 1_000_000_000;

const UNIX: u64 = 1_700_000_000;

/// Scopes are avoided here: the behaviour under test is lifecycle, not
/// containment.
fn config() -> TermConfig {
    TermConfig { use_scope: false, ..TermConfig::with_shell("/bin/sh".to_string()) }
}

fn mgr() -> SessionManager {
    SessionManager::new(config())
}

fn words(argv: &[&str]) -> Vec<String> {
    argv.iter().map(|s| s.to_string()).collect()
}

/// Create a session, as the child `pid` that was started for it.
fn open(m: &mut SessionManager, argv: &[&str], title: &str, pid: u32) -> String {
    let launch = m.create(&words(argv), UNIX, 0).expect("create");
    let id = launch.id.clone();
    m.register(launch, title, pid, UNIX);
    id
}

fn history(m: &mut SessionManager, id: &str) -> String {
    String::from_utf8_lossy(&m.attach(id).expect("attach")).to_string()
}

#[test]
fn creates_a_session_and_captures_output() {
    let mut m = mgr();
    let id = open(&mut m, &["echo", "hello-prism"], "test", 100);
    assert!(m.output(&id, b"hello-prism\r\n"));
    assert!(history(&mut m, &id).contains("hello-prism"));
}

#[test]
fn disabled_manager_refuses_to_spawn() {
    let mut m = SessionManager::new(TermConfig { enabled: false, ..config() });
    assert!(matches!(m.create(&vec![], UNIX, 0), Err(SpawnError::Disabled)));
}

#[test]
fn enforces_a_session_ceiling() {
    let mut m = SessionManager::new(TermConfig { max_sessions: 2, ..config() });
    let a = open(&mut m, &["sleep", "30"], "a", 100);
    let b = open(&mut m, &["sleep", "30"], "b", 101);
    assert!(
        matches!(m.create(&words(&["sleep", "30"]), UNIX, 0), Err(SpawnError::TooMany)),
        "an accidental loop opening terminals must hit a wall"
    );
    assert!(m.kill(&a).is_some());
    assert!(m.kill(&b).is_some());
    assert!(m.create(&words(&["sleep", "30"]), UNIX, 0).is_ok());
}

/// The central lifecycle guarantee.
#[test]
fn detaching_does_not_kill_the_session() {
    let mut m = mgr();
    let id = open(&mut m, &["sleep", "30"], "detach", 100);
    // Attach, then let go — exactly what closing a window does.
    m.attach(&id);
    assert_eq!(m.get(&id).unwrap().info().attached, 1);
    m.detach(&id);
    assert_eq!(m.get(&id).unwrap().info().attached, 0);
    assert!(!m.get(&id).unwrap().has_exited(), "closing a window must not kill the workload it launched");
    assert_eq!(m.live_count(), 1);
}

#[test]
fn a_hangup_proof_command_ignores_sighup() {
    // `trap "" HUP` before exec survives the exec, because an ignored
    // disposition does and a caught one does not.
    let mut m = mgr();
    let launch = m.create_hangup_proof(&words(&["sleep", "30"]), UNIX, 0).expect("create");
    assert_eq!(launch.argv[0], "/bin/sh");
    assert_eq!(launch.argv[1], "-c");
    assert_eq!(launch.argv[2], "trap \"\" HUP; exec \"$@\"");
    assert_eq!(&launch.argv[launch.argv.len() - 2..], &["sleep", "30"]);
}

#[test]
fn an_ordinary_session_is_not_wrapped() {
    // A plain terminal should be the operator's shell, not a shell inside a
    // wrapper, or the process tree and job control become confusing.
    let mut m = mgr();
    let launch = m.create(&words(&["sleep", "30"]), UNIX, 0).expect("create");
    assert_eq!(launch.argv, vec!["sleep", "30"]);
    assert!(launch.unit.is_none());
}

#[test]
fn kill_destroys_the_session_and_removes_it() {
    let mut m = mgr();
    let id = open(&mut m, &["sleep", "30"], "kill", 100);
    let doomed = m.kill(&id).expect("there was something to kill");
    assert_eq!(doomed.pid, 100);
    assert!(doomed.unit.is_none());
    assert!(m.get(&id).is_none());
    assert!(m.kill(&id).is_none(), "killing twice is not an error but is not a kill");
}

#[test]
fn reattaching_replays_scrollback() {
    let mut m = mgr();
    let id = open(&mut m, &["echo", "earlier-output"], "re", 100);
    m.output(&id, b"earlier-output\r\n");
    // A later attacher sees what happened before it arrived.
    assert!(history(&mut m, &id).contains("earlier-output"));
    m.detach(&id);
    assert!(history(&mut m, &id).contains("earlier-output"));
}

#[test]
fn live_output_reaches_a_subscriber() {
    let mut m = mgr();
    let id = open(&mut m, &["sh", "-c", "read x; echo ACK:$x"], "live", 100);
    m.attach(&id);
    assert_eq!(m.get(&id).unwrap().write(), Ok(()));
    assert!(m.output(&id, b"ACK:ping\r\n"), "output of a session that is there is passed on");
    assert!(!m.output("nobody", b"x"));
    assert_eq!(BROADCAST_DEPTH, 256);
}

#[test]
fn exit_is_observed_with_its_code() {
    let mut m = mgr();
    let id = open(&mut m, &["sh", "-c", "exit 3"], "code", 100);
    m.ended(&id, SECOND);
    m.exited_with(&id, 3);
    assert!(m.get(&id).unwrap().has_exited());
    assert_eq!(m.get(&id).unwrap().info().exit_code, Some(3));
}

#[test]
fn writing_to_an_exited_session_errors_rather_than_hanging() {
    let mut m = mgr();
    let id = open(&mut m, &["true"], "gone", 100);
    m.ended(&id, SECOND);
    assert_eq!(m.get(&id).unwrap().write(), Err(HasExited));
}

#[test]
fn exited_sessions_linger_so_their_error_can_be_read() {
    let mut m = mgr();
    let id = open(&mut m, &["sh", "-c", "echo boom; exit 1"], "linger", 100);
    m.output(&id, b"boom\r\n");
    m.ended(&id, SECOND);
    m.reap(2 * SECOND);
    assert!(m.get(&id).is_some(), "a command that fails instantly must not vanish with its explanation");
    assert!(history(&mut m, &id).contains("boom"));
}

#[test]
fn an_exited_session_goes_once_nobody_has_read_it_for_long_enough() {
    let mut m = mgr();
    let id = open(&mut m, &["true"], "old", 100);
    let alive = open(&mut m, &["sleep", "30"], "alive", 101);
    m.ended(&id, SECOND);
    m.reap((LINGER + 10) * SECOND);
    assert!(m.get(&id).is_none());
    assert!(m.get(&alive).is_some(), "what still runs is never reaped");
}

#[test]
fn listing_reports_sessions_oldest_first() {
    let mut m = mgr();
    let second = m.create(&words(&["sleep", "30"]), UNIX, 0).unwrap();
    let first = m.create(&words(&["sleep", "30"]), UNIX, 0).unwrap();
    m.register(second, "second", 100, UNIX + 2);
    m.register(first, "first", 101, UNIX);
    let list = m.list();
    assert_eq!(list.len(), 2);
    assert!(list[0].created_unix <= list[1].created_unix);
    assert_eq!(list[0].title, "first");
}

#[test]
fn live_count_ignores_exited_sessions() {
    let mut m = mgr();
    open(&mut m, &["sleep", "30"], "a", 100);
    let dead = open(&mut m, &["true"], "b", 101);
    assert_eq!(m.live_count(), 2);
    m.ended(&dead, SECOND);
    assert_eq!(m.live_count(), 1);
}

#[test]
fn scrollback_can_be_shrunk_across_all_sessions() {
    let mut m = mgr();
    let id = open(&mut m, &["echo"], "shrink", 100);
    m.output(&id, "x".repeat(500).as_bytes());
    m.shrink_all_scrollback(64);
    let info = m.get(&id).unwrap().info();
    assert!(info.scrollback_bytes <= 64);
    assert_eq!(info.scrollback_dropped, 436);
}

#[test]
fn no_command_means_the_shell() {
    let mut m = mgr();
    let launch = m.create(&vec![], UNIX, 0).unwrap();
    assert_eq!(launch.argv[0], "/bin/sh");
}

#[test]
fn each_session_has_an_id_of_its_own() {
    let mut m = mgr();
    let a = open(&mut m, &["a"], "a", 1);
    let b = open(&mut m, &["a"], "a", 2);
    assert_ne!(a, b);
}

#[test]
fn a_scope_is_named_after_its_session_and_a_facet_after_itself() {
    let mut m = SessionManager::new(TermConfig::with_shell("/bin/sh".to_string()));
    let Launch { id, unit, argv } = m.create(&words(&["sleep", "30"]), UNIX, 0).unwrap();
    assert_eq!(argv[0], "systemd-run");
    assert!(unit.unwrap().contains(&id));
    assert_eq!(&argv[argv.len() - 2..], &["sleep", "30"]);
    let facet = m.create_for_facet("comfyui", &words(&["run"]), UNIX, 0).unwrap();
    assert_eq!(facet.unit, Some("prism-facet-comfyui.scope".to_string()));
}

#[test]
fn refusals_to_spawn_say_what_is_wrong() {
    assert_eq!(SpawnError::Disabled.message(), "terminal sessions are disabled");
    assert_eq!(SpawnError::TooMany.message(), "too many open sessions");
}

#[test]
fn the_shell_is_the_accounts_own() {
    assert_eq!(login_shell(Some("/bin/zsh"), Some("/bin/fish")), "/bin/zsh");
    assert_eq!(login_shell(None, Some("/bin/fish")), "/bin/fish");
    assert_eq!(login_shell(None, None), "/bin/sh");
}

#[test]
fn empty_argv_is_rejected() {
    assert_eq!(check_argv(&vec![]), Err(ArgvError::Empty));
}

#[test]
fn argument_containing_nul_is_rejected() {
    let bad = String::from("echo\0evil");
    assert_eq!(check_argv(&vec![bad.clone()]), Err(ArgvError::NulInProgram));
    assert_eq!(check_argv(&vec!["echo".to_string(), bad]), Err(ArgvError::NulInArgument));
    assert_eq!(check_argv(&words(&["echo", "good"])), Ok(()));
    assert_eq!(ArgvError::Empty.message(), "empty argv");
}

#[test]
fn a_terminal_starts_at_its_usual_size() {
    assert_eq!(WinSize::default(), WinSize { rows: 24, cols: 80 });
}
