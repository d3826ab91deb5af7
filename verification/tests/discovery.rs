use prism::config::{Expose, Facet, FacetLimits};
use prism::discover::{
    command_line, extract_title, is_infrastructure, page_title, parse_hex_addr, parse_listeners, ports, socket_inode,
    sweep, Address, Owner, Probed, PROBE_CAP,
};
use prism::gate::Gate;

fn loopback6() -> Address {
    let mut a = [0u8; 16];
    a[15] = 1;
    Address::V6(a)
}

// A real excerpt: two listeners and one established connection.
const TCP: &str = "\
  sl  local_address rem_address   st tx_queue rx_queue tr tm->when retrnsmt   uid  timeout inode
   0: 0100007F:1F90 00000000:0000 0A 00000000:00000000 00:00000000 00000000  1000        0 41231 1
   1: 00000000:1FF6 00000000:0000 0A 00000000:00000000 00:00000000 00000000  1000        0 41232 1
   2: 0100007F:1F90 0100007F:B3A2 01 00000000:00000000 00:00000000 00000000  1000        0 41233 1
";

#[test]
fn only_listening_sockets_are_reported() {
    // An established connection shares the file and would otherwise be
    // reported as a service.
    let l = parse_listeners(TCP);
    assert_eq!(l.len(), 2, "{l:?}");
    assert!(l.iter().all(|x| x.inode != 41233));
}

#[test]
fn addresses_are_byte_swapped_back() {
    // 0100007F is 127.0.0.1 written in host order, not 1.0.0.127.
    let l = parse_listeners(TCP);
    assert_eq!(l[0].addr, Address::V4([127, 0, 0, 1]));
    assert_eq!(l[0].port, 8080);
    assert_eq!(l[1].addr, Address::V4([0, 0, 0, 0]));
    assert_eq!(l[1].port, 8182);
}

#[test]
fn ipv6_loopback_parses() {
    let hex = "00000000000000000000000001000000";
    assert_eq!(parse_hex_addr(hex), Some(loopback6()));
}

#[test]
fn a_malformed_table_yields_nothing_rather_than_panicking() {
    // /proc is not a stable API contract; a short line must not take the
    // daemon down.
    assert!(parse_listeners("header\nnonsense\n1: x\n").is_empty());
    assert!(parse_listeners("").is_empty());
}

#[test]
fn titles_survive_attributes_entities_and_newlines() {
    assert_eq!(extract_title("<title>ComfyUI</title>").as_deref(), Some("ComfyUI"));
    assert_eq!(
        extract_title("<TITLE lang=\"en\">\n  Syncthing &amp; friends\n</TITLE>").as_deref(),
        Some("Syncthing & friends")
    );
    assert_eq!(extract_title("<title>   </title>"), None);
    assert_eq!(extract_title("<p>no title here</p>"), None);
    // Unterminated: a truncated body must not yield the rest of the page.
    assert_eq!(extract_title("<title>oops"), None);
}

#[test]
fn protocols_that_cannot_be_web_apps_are_excluded() {
    assert!(is_infrastructure(22) && is_infrastructure(53) && is_infrastructure(445));
    // Application ports must not be, or the sweep stops generalising.
    assert!(!is_infrastructure(8188) && !is_infrastructure(8384) && !is_infrastructure(3000));
}

fn facet_on(port: u16) -> Facet {
    Facet {
        id: "app".to_string(),
        name: "App".to_string(),
        command: vec!["run".to_string()],
        cwd: None,
        limits: FacetLimits::default(),
        enabled_if: Gate::default(),
        pty: false,
        expose: Some(Expose { port, tls: false }),
        graceful: None,
        offloads_to_ram: false,
    }
}

#[test]
fn a_port_is_asked_once_and_neither_ours_nor_infrastructure_is() {
    let table = "\
header
 0: 0100007F:1F90 0:0 0A 0:0 0:0 0 1000 0 11 1
 1: 00000000:1F90 0:0 0A 0:0 0:0 0 1000 0 12 1
 2: 00000000:0016 0:0 0A 0:0 0:0 0 0 0 13 1
 3: 00000000:2328 0:0 0A 0:0 0:0 0 1000 0 14 1
";
    assert_eq!(ports(&parse_listeners(table), 9000), vec![(8080, 11)]);
}

#[test]
fn what_answers_is_offered_with_its_owner() {
    let probed = vec![
        Probed { port: 8188, inode: 7, http: true, tls: false, title: Some("ComfyUI".to_string()) },
        Probed { port: 8200, inode: 8, http: false, tls: false, title: None },
    ];
    let owners = vec![Owner { inode: 7, pid: 42, process: "python".to_string(), command: Some("python main.py".to_string()) }];
    let found = sweep(&probed, &owners, &vec![facet_on(8188)]);
    assert_eq!(found.len(), 1);
    assert_eq!(found[0].port, 8188);
    assert_eq!(found[0].pid, Some(42));
    assert_eq!(found[0].process.as_deref(), Some("python"));
    assert_eq!(found[0].title.as_deref(), Some("ComfyUI"));
    assert!(found[0].known);
    assert!(!sweep(&probed, &owners, &vec![])[0].known);
}

#[test]
fn a_socket_is_told_from_other_links() {
    assert_eq!(socket_inode("socket:[41231]"), Some(41231));
    assert_eq!(socket_inode("/dev/null"), None);
    assert_eq!(socket_inode("socket:[x]"), None);
}

#[test]
fn a_command_line_is_shown_with_spaces() {
    assert_eq!(command_line(b"python\0main.py\0").as_deref(), Some("python main.py"));
    assert_eq!(command_line(b"\0\0"), None);
    assert_eq!(command_line(b"a\xffb\0").as_deref(), Some("a\u{fffd}b"));
}

#[test]
fn only_the_first_part_of_a_body_is_looked_at() {
    assert_eq!(page_title(b"<title>T\xff</title>").as_deref(), Some("T\u{fffd}"));
    let mut late = vec![b' '; PROBE_CAP];
    late.extend_from_slice(b"<title>T</title>");
    assert_eq!(page_title(&late), None);
}
