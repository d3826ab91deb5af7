use prism::events::{EventLog, Level, CAPACITY};

#[test]
fn records_and_returns_newest_first() {
    let mut log = EventLog::new();
    log.push(Level::Info, "governor", "first".to_string());
    log.push(Level::Action, "storm", "second".to_string());
    let recent = log.recent(10);
    assert_eq!(recent.len(), 2);
    assert_eq!(recent[0].message, "second");
    assert_eq!(recent[1].message, "first");
}

#[test]
fn never_grows_past_its_capacity() {
    // An unbounded log inside the memory-safety daemon would be a poor joke.
    let mut log = EventLog::new();
    for i in 0..(CAPACITY * 3) {
        log.push(Level::Info, "test", format!("event {i}"));
    }
    assert_eq!(log.len(), CAPACITY);
}

#[test]
fn the_oldest_events_are_the_ones_dropped() {
    let mut log = EventLog::new();
    for i in 0..(CAPACITY + 10) {
        log.push(Level::Info, "test", format!("event {i}"));
    }
    let all = log.recent(CAPACITY);
    assert_eq!(all[0].message, format!("event {}", CAPACITY + 9));
    assert!(!all.iter().any(|e| e.message == "event 0"));
}

#[test]
fn limit_is_respected() {
    let mut log = EventLog::new();
    for i in 0..50 {
        log.push(Level::Info, "test", format!("{i}"));
    }
    assert_eq!(log.recent(5).len(), 5);
}

#[test]
fn interventions_are_distinguishable_from_observations() {
    // The whole point: a later analysis must be able to subtract Prism's own
    // actions from the timeline it is reading.
    let mut log = EventLog::new();
    log.push(Level::Info, "governor", "tier amber".to_string());
    log.push(Level::Action, "storm", "killed 12 processes".to_string());
    let acted: Vec<_> = log
        .recent(10)
        .into_iter()
        .filter(|e| e.level == Level::Action)
        .collect();
    assert_eq!(acted.len(), 1);
    assert_eq!(acted[0].source, "storm");
}

#[test]
fn detail_is_optional_and_omitted_when_absent() {
    let mut log = EventLog::new();
    log.push(Level::Info, "test", "plain".to_string());
    log.push_detailed(Level::Error, "facet", "failed".to_string(), Some("exit 1".to_string()));
    let r = log.recent(2);
    assert!(r[0].detail.is_some());
    assert!(r[1].detail.is_none());
}

#[test]
fn an_empty_log_reads_empty() {
    let log = EventLog::new();
    assert!(log.is_empty());
    assert!(log.recent(10).is_empty());
}

#[test]
fn an_event_carries_the_time_it_was_recorded_at() {
    let mut log = EventLog::new();
    log.record(1_700_000_000, Level::Warn, "governor", "late".to_string(), None);
    let e = &log.recent(1)[0];
    assert_eq!(e.unix, 1_700_000_000);
    assert_eq!(e.level, Level::Warn);
    assert_eq!(e.source, "governor");
}

#[test]
fn the_running_clock_is_past_the_epoch() {
    let mut log = EventLog::new();
    log.push(Level::Info, "test", "now".to_string());
    assert!(log.recent(1)[0].unix > 1_600_000_000);
}
