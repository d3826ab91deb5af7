use prism::bind::{parse_v4, resolve, Socket};
use prism::config::BindMode;
use prism::discover::Address;
use prism::enrol::{account, already_enrolled, banner_head, banner_tail, plan, usable};
use prism::open::{
    advertised_base, base, grant_url, read_grant, request, split_authority, AuthorityError,
};

const LOOPBACK: Address = Address::V4([127, 0, 0, 1]);

#[test]
fn localhost_binds_loopback() {
    let addr = resolve(&BindMode::Localhost, 9000, None, None).unwrap();
    assert_eq!(addr.addr, LOOPBACK);
    assert_eq!(addr.port, 9000);
}

#[test]
fn explicit_address_is_honoured() {
    let addr = resolve(&BindMode::Address("100.64.0.1".into()), 9000, None, None).unwrap();
    assert_eq!(addr, Socket { addr: Address::V4([100, 64, 0, 1]), port: 9000 });
}

#[test]
fn invalid_address_is_an_error_not_a_wildcard_fallback() {
    // Falling back to 0.0.0.0 on a typo would silently publish the service.
    assert!(resolve(&BindMode::Address("not-an-ip".into()), 9000, None, None).is_err());
}

#[test]
fn tailscale_mode_never_yields_a_wildcard() {
    // Whether or not tailscale is present, the result must be a specific
    // address — either the tailnet IP or loopback.
    for answer in [None, Some(""), Some("100.64.0.7\n"), Some("garbage")] {
        let addr = resolve(&BindMode::Tailscale, 9000, answer, None).unwrap();
        assert_ne!(addr.addr, Address::V4([0, 0, 0, 0]), "tailscale mode must never resolve to 0.0.0.0");
    }
}

#[test]
fn the_tailnet_address_is_used_where_there_is_one() {
    let addr = resolve(&BindMode::Tailscale, 9000, Some("100.64.0.7\nfd7a::1\n"), None).unwrap();
    assert_eq!(addr.addr, Address::V4([100, 64, 0, 7]));
    let addr = resolve(&BindMode::Tailscale, 9000, None, None).unwrap();
    assert_eq!(addr.addr, LOOPBACK);
}

#[test]
fn an_address_of_the_newer_kind_is_taken_as_it_was_read() {
    let mut six = [0u8; 16];
    six[15] = 1;
    let addr = resolve(&BindMode::Address("::1".into()), 9000, None, Some(six)).unwrap();
    assert_eq!(addr.addr, Address::V6(six));
}

#[test]
fn addresses_are_four_numbers_without_padding() {
    assert_eq!(parse_v4("10.0.0.255"), Some([10, 0, 0, 255]));
    assert_eq!(parse_v4("10.0.0.256"), None);
    assert_eq!(parse_v4("10.0.0"), None);
    assert_eq!(parse_v4("10.0.0.01"), None);
    assert_eq!(parse_v4(" 10.0.0.1"), None);
}

#[test]
fn authority_splits() {
    assert_eq!(
        split_authority("http://127.0.0.1:9000").unwrap(),
        ("127.0.0.1".to_string(), 9000)
    );
    assert_eq!(
        split_authority("http://100.64.0.1:9411/").unwrap(),
        ("100.64.0.1".to_string(), 9411)
    );
    assert!(split_authority("http://nope").is_err());
}

#[test]
fn each_bad_authority_is_told_apart() {
    assert_eq!(split_authority("http://nope"), Err(AuthorityError::NoPort));
    assert_eq!(split_authority("http://host:many"), Err(AuthorityError::BadPort));
    assert_ne!(AuthorityError::NoPort.message(), AuthorityError::BadPort.message());
}

#[test]
fn a_base_comes_apart_again() {
    assert_eq!(base("127.0.0.1", 9000), "http://127.0.0.1:9000");
    assert_eq!(split_authority(&base("host", 80)), Ok(("host".to_string(), 80)));
    assert_eq!(advertised_base("100.64.0.7\nfd7a::1\n", 9000).as_deref(), Some("http://100.64.0.7:9000"));
    assert_eq!(advertised_base("\n", 9000), None);
}

#[test]
fn a_grant_is_asked_for_and_read_back() {
    let asked = request("127.0.0.1", "k3y");
    assert!(asked.starts_with("POST "));
    assert!(asked.contains("k3y"));
    let reply = "HTTP/1.1 200 OK\r\nContent-Type: application/json\r\n\r\n{\"grant\":\"abc\"}";
    assert_eq!(read_grant(reply), Ok("abc".to_string()));
    assert!(read_grant("HTTP/1.1 403 Forbidden\r\n\r\n{}").is_err());
    assert!(read_grant("nonsense").is_err());
    assert!(grant_url("http://h:1", "abc").starts_with("http://h:1/"));
    assert!(grant_url("http://h:1", "abc").ends_with("abc"));
}

#[test]
fn only_a_secret_of_the_right_length_is_used() {
    assert!(usable(&[0u8; 20]));
    assert!(!usable(b"too short"));
    assert!(!usable(&[0u8; 21]));
}

#[test]
fn a_live_secret_is_replaced_only_on_request() {
    let keep = plan(true, false);
    assert!(!keep.make && !keep.sign_out && !keep.revoked);
    let reset = plan(true, true);
    assert!(reset.make && reset.sign_out && reset.revoked && reset.restart);
    let fresh = plan(false, false);
    assert!(fresh.make && !fresh.revoked);
}

#[test]
fn an_account_names_the_user_and_the_host() {
    assert_eq!(account(Some("ada"), Some("engine\n")), "ada@engine");
}

#[test]
fn the_banner_shows_the_secret_only_where_it_was_made() {
    let tail = banner_tail(b"12345678901234567890", "/var/totp.secret", false).join("\n");
    assert!(tail.contains("GEZDGNBVGY3TQOJQGEZDGNBVGY3TQOJQ"));
    assert!(tail.contains("/var/totp.secret"));
    assert!(!banner_head(true).is_empty());
    assert!(already_enrolled("/var/totp.secret").join("\n").contains("/var/totp.secret"));
}

#[test]
fn a_wildcard_bind_says_that_it_is_one() {
    let everywhere = BindMode::Address("::".to_string());
    assert_eq!(resolve(&everywhere, 9000, None, Some([0; 16])), Ok(Socket { addr: Address::V6([0; 16]), port: 9000 }));
    assert!(everywhere.is_wildcard());
    let v4 = BindMode::Address("0.0.0.0".to_string());
    assert_eq!(resolve(&v4, 9000, None, None), Ok(Socket { addr: Address::V4([0; 4]), port: 9000 }));
    assert!(v4.is_wildcard());
}
