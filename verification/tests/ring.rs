use prism::term::ring::{Ring, DEFAULT_CAPACITY};

#[test]
fn retains_short_output_verbatim() {
    let mut r = Ring::new(64);
    r.push(b"hello ");
    r.push(b"world");
    assert_eq!(r.snapshot(), b"hello world");
    assert_eq!(r.dropped(), 0);
}

#[test]
fn discards_oldest_when_full() {
    let mut r = Ring::new(8);
    r.push(b"aaaaaaaa"); // exactly full
    r.push(b"bcd");
    // Keeps the most recent 8 bytes — a reattach wants the newest output.
    assert_eq!(r.snapshot(), b"aaaaabcd");
    assert_eq!(r.len(), 8);
    assert_eq!(r.dropped(), 3);
}

#[test]
fn never_exceeds_capacity_under_sustained_writes() {
    let mut r = Ring::new(100);
    for _ in 0..1000 {
        r.push(b"0123456789");
    }
    assert_eq!(r.len(), 100, "the cap is the whole point");
    assert!(r.dropped() > 9000);
}

#[test]
fn a_single_oversized_write_keeps_its_tail() {
    let mut r = Ring::new(10);
    r.push(b"xxxx");
    r.push(b"ABCDEFGHIJKLMNOP"); // 16 bytes into a 10-byte ring
    assert_eq!(r.snapshot(), b"GHIJKLMNOP");
    assert_eq!(r.len(), 10);
}

#[test]
fn zero_capacity_retains_nothing_and_does_not_panic() {
    let mut r = Ring::new(0);
    r.push(b"anything at all");
    assert!(r.is_empty());
    assert_eq!(r.dropped(), 15);
}

#[test]
fn empty_ring_snapshots_empty() {
    let r = Ring::new(64);
    assert!(r.snapshot().is_empty());
    assert!(r.is_empty());
}

#[test]
fn shrinking_capacity_drops_oldest_to_fit() {
    // The de-escalation path: Red tier shrinks retention.
    let mut r = Ring::new(100);
    r.push(&[b'z'; 100]);
    r.set_capacity(10);
    assert_eq!(r.len(), 10);
    assert_eq!(r.capacity(), 10);
    assert_eq!(r.dropped(), 90);
}

#[test]
fn growing_capacity_keeps_existing_content() {
    let mut r = Ring::new(10);
    r.push(b"0123456789");
    r.set_capacity(100);
    assert_eq!(r.snapshot(), b"0123456789");
    assert_eq!(r.dropped(), 0);
}

#[test]
fn binary_output_is_preserved_byte_for_byte() {
    // Terminal output is escape sequences, not text; no lossy handling.
    let mut r = Ring::new(64);
    let esc = b"\x1b[2J\x1b[H\x00\xff\xfe";
    r.push(esc);
    assert_eq!(r.snapshot(), esc);
}

#[test]
fn clear_empties_but_keeps_the_dropped_tally() {
    let mut r = Ring::new(4);
    r.push(b"abcdefgh");
    let before = r.dropped();
    r.clear();
    assert!(r.is_empty());
    assert_eq!(r.dropped(), before, "history of loss must survive a clear");
}

#[test]
fn nothing_is_lost_count_of_in_the_ring() {
    let mut r = Ring::new(5);
    let mut written: u64 = 0;
    for chunk in [&b"abc"[..], b"defgh", b"", b"ijklmnop"] {
        r.push(chunk);
        written += chunk.len() as u64;
        assert_eq!(r.len() as u64 + r.dropped(), written);
    }
    assert_eq!(r.snapshot(), b"lmnop");
}

#[test]
fn the_default_ring_keeps_a_quarter_of_a_mebibyte() {
    assert_eq!(Ring::default().capacity(), DEFAULT_CAPACITY);
    assert_eq!(Ring::with_default_capacity().capacity(), 262_144);
}
