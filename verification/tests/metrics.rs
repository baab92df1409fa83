use medius::metrics::PacerMetrics;

#[test]
fn records_ticks_and_jitter() {
    let mut m = PacerMetrics::new();
    let period = 1_000_000;
    m.record_tick(0, period);
    for i in 1..=5u64 {
        m.record_tick(i * 200_000, period);
    }
    m.record_write_latency(30_000);
    assert_eq!(m.ticks(), 6);
    assert_eq!(m.jitter().histogram.len(), 5);
    assert!(!m.jitter().histogram.is_empty());
    assert_eq!(m.write_latency().histogram.len(), 1);
    assert!(m.write_latency().histogram.max() >= 1);
}

#[test]
fn counts_late_ticks() {
    let mut m = PacerMetrics::new();
    let period = 1;
    m.record_tick(0, period);
    for i in 1..=3u64 {
        m.record_tick(i * 100_000, period);
    }
    assert_eq!(m.ticks(), 4);
    assert_eq!(m.late_ticks(), 3, "every real interval overruns a 1ns period");
}

#[test]
fn empty_snapshot_is_clean() {
    let m = PacerMetrics::new();
    assert_eq!(m.ticks(), 0);
    assert_eq!(m.late_ticks(), 0);
    assert!(m.jitter().histogram.is_empty());
    assert!(m.write_latency().histogram.is_empty());
    assert_eq!(m.jitter().histogram.min(), 0);
    assert_eq!(m.jitter().histogram.max(), 0);
}

#[test]
fn jitter_is_the_distance_from_the_period_and_saturates() {
    let mut m = PacerMetrics::new();
    m.record_tick(1_000, 1_000_000);
    m.record_tick(1_001_000, 1_000_000);
    assert_eq!(m.jitter().histogram.max(), 1, "an exact interval records the 1 ns floor");
    assert_eq!(m.late_ticks(), 0);
    m.record_tick(5_000_001_000, 1_000_000);
    assert_eq!(m.late_ticks(), 1);
    assert!(m.jitter().histogram.max() >= 999_000_000, "a stall records at the ceiling");
    m.record_tick(0, 1_000_000);
    assert_eq!(m.late_ticks(), 1, "a clock that reads earlier is no late tick");
    m.record_write_latency(u128::MAX);
    assert!(m.write_latency().histogram.max() >= 999_000_000);
}
