use celeste_autosplit::counter::{Counter, EdgeCounter, MAX_COUNTER_STEP};

#[test]
fn fresh_counter_reports_zero_once() {
    let mut c = Counter::new();
    assert_eq!(c.take_emit(), Some(0));
    assert_eq!(c.take_emit(), None);
}

#[test]
fn counter_adds_positive_steps() {
    let mut c = Counter::new();
    c.feed(Some(3));
    assert_eq!(c.take_emit(), Some(0));
    c.feed(Some(5));
    c.feed(Some(6));
    assert_eq!(c.take_emit(), Some(3));
    assert_eq!(c.take_emit(), None);
}

#[test]
fn counter_ignores_drops_missing_and_huge_steps() {
    let mut c = Counter::new();
    c.feed(Some(10));
    c.feed(Some(4)); // drop: remembered, not counted
    c.feed(None); // missing sample
    c.feed(Some(5)); // +1 from 4
    c.feed(Some(5 + MAX_COUNTER_STEP + 1)); // bogus jump
    c.feed(Some(6 + MAX_COUNTER_STEP + 1)); // +1
    assert_eq!(c.take_emit(), Some(2));
}

#[test]
fn counter_accepts_exactly_max_step() {
    let mut c = Counter::new();
    c.feed(Some(0));
    c.feed(Some(MAX_COUNTER_STEP));
    assert_eq!(c.take_emit(), Some(1000));
}

#[test]
fn counter_reset_starts_over() {
    let mut c = Counter::new();
    c.feed(Some(1));
    c.feed(Some(2));
    assert_eq!(c.take_emit(), Some(1));
    c.reset();
    assert_eq!(c.take_emit(), Some(0));
    c.feed(Some(7));
    assert_eq!(c.take_emit(), None);
}

#[test]
fn counter_can_feed_detects_overflowing_step() {
    let mut c = Counter::new();
    assert!(c.can_feed(Some(i32::MAX)));
    c.feed(Some(i32::MAX));
    assert!(!c.can_feed(Some(-2)));
    assert!(c.can_feed(Some(-1)));
    assert!(c.can_feed(Some(0)));
}

#[test]
fn edge_counter_counts_rising_edges() {
    let mut e = EdgeCounter::new();
    for f in [false, true, true, false, true, false, false, true] {
        e.feed(f);
    }
    assert_eq!(e.take_emit(), Some(3));
    assert_eq!(e.take_emit(), None);
    e.feed(true);
    assert_eq!(e.take_emit(), None);
    e.reset();
    assert_eq!(e.take_emit(), Some(0));
}

#[test]
fn defaults_are_fresh() {
    let mut c = Counter::default();
    let mut e = EdgeCounter::default();
    assert_eq!(c.take_emit(), Some(0));
    assert_eq!(e.take_emit(), Some(0));
}
