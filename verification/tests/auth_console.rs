//! The console: a key on this disk for a grant that is worth one use.

use prism::auth::console::{key_matches, stored_key, Grants, GRANT_BYTES, GRANT_TTL_SECS, KEY_BYTES};

const RANDOM: [u8; 24] = [
    3, 1, 4, 1, 5, 9, 2, 6, 5, 3, 5, 8, 9, 7, 9, 3, 2, 3, 8, 4, 6, 2, 6, 4,
];

#[test]
fn a_grant_is_worth_exactly_one_use() {
    let mut g = Grants::new();
    let t = g.mint(&RANDOM, 1000);
    assert!(g.spend(&t, 1000));
    assert!(!g.spend(&t, 1000), "a spent grant must never work twice");
}

#[test]
fn a_grant_expires() {
    let mut g = Grants::new();
    let t = g.mint(&RANDOM, 1000);
    assert!(!g.spend(&t, 1000 + GRANT_TTL_SECS + 1));
}

#[test]
fn an_unknown_grant_is_refused() {
    let mut g = Grants::new();
    assert!(!g.spend("not-a-grant", 1000));
}

#[test]
fn key_comparison_rejects_near_misses_and_lengths() {
    assert!(key_matches("abc123", "abc123"));
    assert!(key_matches("abc123", " abc123\n"));
    assert!(!key_matches("abc123", "abc124"));
    assert!(!key_matches("abc123", "abc12"));
    assert!(!key_matches("abc123", ""));
}

#[test]
fn a_grant_is_its_random_bytes_in_hexadecimal() {
    assert_eq!(GRANT_BYTES, 24);
    let mut g = Grants::new();
    let t = g.mint(&RANDOM, 1000);
    assert_eq!(t, "030104010509020605030508090709030203080406020604");
}

#[test]
fn spending_one_grant_leaves_the_others() {
    let mut g = Grants::new();
    let a = g.mint(&[1u8; 24], 1000);
    let b = g.mint(&[2u8; 24], 1000);
    assert!(g.spend(&a, 1001));
    assert!(g.spend(&b, 1001));
}

#[test]
fn a_stored_key_is_read_back_and_an_empty_one_is_not() {
    assert_eq!(KEY_BYTES, 32);
    let key = "0f".repeat(32);
    assert_eq!(stored_key(&format!("{key}\n")).as_deref(), Some(key.as_str()));
    assert_eq!(stored_key(" \n"), None);
}

#[test]
fn a_grant_is_spent_once_whatever_happens_in_between() {
    let mut g = Grants::new();
    let first = g.mint(&[1; 24], 1000);
    let second = g.mint(&[2; 24], 1001);
    assert!(g.spend(&second, 1002));
    assert!(g.spend(&first, 1003));
    let third = g.mint(&[3; 24], 1004);
    assert!(!g.spend(&first, 1005));
    assert!(!g.spend(&second, 1005));
    assert!(g.spend(&third, 1005));
    assert!(!g.spend(&third, 1005));
}

#[test]
fn a_grant_is_good_for_a_minute_whatever_else_is_minted() {
    let mut g = Grants::new();
    let t = g.mint(&RANDOM, 1000);
    for i in 0..5u8 {
        g.mint(&[i; 24], 1010 + i as u64);
    }
    assert!(g.spend(&t, 1000 + GRANT_TTL_SECS - 1));
    assert!(!g.spend(&t, 1000 + GRANT_TTL_SECS - 1));
    let late = g.mint(&RANDOM, 2000);
    assert!(!g.spend(&late, 2000 + GRANT_TTL_SECS));
}
