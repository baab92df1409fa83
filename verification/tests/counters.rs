use medius::counters::Counters;
use medius::types::CountersSnapshot;

#[test]
fn starts_at_zero() {
    let c = Counters::default();
    assert_eq!(c.snapshot(), CountersSnapshot::default());
}

#[test]
fn increments_each_field() {
    let mut c = Counters::default();
    c.inc_tx();
    c.inc_tx();
    c.inc_rx();
    c.inc_reconnects();
    c.set_crc_drops(5);

    let s = c.snapshot();
    assert_eq!(s.frames_tx, 2);
    assert_eq!(s.frames_rx, 1);
    assert_eq!(s.crc_drops, 5);
    assert_eq!(s.reconnects, 1);
}

#[test]
fn snapshot_is_independent_copy() {
    let mut c = Counters::default();
    c.inc_tx();
    let s1 = c.snapshot();
    c.inc_tx();
    let s2 = c.snapshot();
    assert_eq!(s1.frames_tx, 1);
    assert_eq!(s2.frames_tx, 2);
}

#[test]
fn totals_wrap_at_the_top() {
    let mut c = Counters { frames_tx: u64::MAX, frames_rx: 7, crc_drops: 0, reconnects: 0, restarts: 0 };
    c.inc_tx();
    assert_eq!(c.frames_tx, 0);
    assert_eq!(c.frames_rx, 7);
}

#[test]
fn restarts_count_on_their_own() {
    let mut c = Counters::new();
    c.inc_restarts();
    c.inc_restarts();
    let s = c.snapshot();
    assert_eq!(s.restarts, 2);
    assert_eq!((s.frames_tx, s.frames_rx, s.crc_drops, s.reconnects), (0, 0, 0, 0));
}

#[test]
fn counters_is_send_sync() {
    fn assert_send_sync<T: Send + Sync>() {}
    assert_send_sync::<medius::counters::Counters>();
}
