use medius::pacer::{
    abs_diff_nanos, clamp_period_nanos, duration_nanos_clamped, period_nanos_to_rate, rate_to_period_nanos,
    Accumulator, DEFAULT_RATE_HZ, MAX_TRACKED_NS,
};

#[test]
fn idle_tick_emits_nothing() {
    let mut acc = Accumulator::default();
    assert_eq!(acc.tick_emit(), None);
    assert_eq!(acc.tick_emit(), None);
}

#[test]
fn many_pushes_in_one_window_coalesce_into_one_move() {
    let mut acc = Accumulator::default();
    acc.push(3, -1);
    acc.push(4, 0);
    acc.push(-2, 5);
    assert_eq!(acc.tick_emit(), Some((5, 4)));
    assert_eq!(acc.tick_emit(), None);
}

#[test]
fn total_emitted_equals_total_pushed_within_i16() {
    let mut acc = Accumulator::default();
    let pushes = [(10, -20), (-5, 7), (100, 3), (-50, -50)];
    let (mut sum_x, mut sum_y) = (0i32, 0i32);
    for &(dx, dy) in &pushes {
        acc.push(dx, dy);
        sum_x += dx as i32;
        sum_y += dy as i32;
    }
    let (ex, ey) = acc.tick_emit().expect("non-zero");
    assert_eq!((ex as i32, ey as i32), (sum_x, sum_y));
}

#[test]
fn oversized_burst_is_paced_across_ticks_with_carry() {
    let mut acc = Accumulator::default();
    let big_x: i32 = 80_000;
    let big_y: i32 = -50_000;
    for chunk in [30_000i16, 30_000, 20_000] {
        acc.push(chunk, 0);
    }
    for chunk in [-30_000i16, -20_000] {
        acc.push(0, chunk);
    }

    let mut total_x: i32 = 0;
    let mut total_y: i32 = 0;
    let mut ticks = 0;
    while let Some((dx, dy)) = acc.tick_emit() {
        total_x += dx as i32;
        total_y += dy as i32;
        ticks += 1;
        assert!(ticks < 100, "should drain in a bounded number of ticks");
    }
    assert_eq!(total_x, big_x, "X total preserved exactly across the carry");
    assert_eq!(total_y, big_y, "Y total preserved exactly across the carry");
    assert!(ticks >= 3, "an >i16 burst must take multiple ticks (paced)");
}

#[test]
fn first_emitted_field_is_clamped_to_i16_max() {
    let mut acc = Accumulator::default();
    acc.push(30_000, 0);
    acc.push(30_000, 0);
    let (dx, _) = acc.tick_emit().unwrap();
    assert_eq!(dx, i16::MAX, "first tick carries exactly the i16 ceiling");
    let (dx2, _) = acc.tick_emit().unwrap();
    assert_eq!(dx2 as i32, 60_000 - i16::MAX as i32);
}

#[test]
fn velocity_emits_every_tick() {
    let mut acc = Accumulator::default();
    acc.set_velocity(2, -3);
    for _ in 0..5 {
        assert_eq!(acc.tick_emit(), Some((2, -3)));
    }
    acc.clear_velocity();
    assert_eq!(acc.tick_emit(), None);
}

#[test]
fn velocity_and_push_combine_additively_in_one_tick() {
    let mut acc = Accumulator::default();
    acc.set_velocity(10, 10);
    acc.push(5, -4);
    assert_eq!(acc.tick_emit(), Some((15, 6)));
    assert_eq!(acc.tick_emit(), Some((10, 10)));
}

#[test]
fn zero_velocity_with_no_push_is_idle() {
    let mut acc = Accumulator::default();
    acc.set_velocity(0, 0);
    assert_eq!(acc.tick_emit(), None);
}

#[test]
fn negative_burst_clamps_to_i16_min() {
    let mut acc = Accumulator::new();
    acc.push(0, -30_000);
    acc.push(0, -30_000);
    assert_eq!(acc.tick_emit(), Some((0, i16::MIN)));
    assert_eq!(acc.tick_emit(), Some((0, -27_232)));
    assert_eq!(acc.tick_emit(), None);
}

#[test]
fn rate_and_period_convert_both_ways() {
    assert_eq!(rate_to_period_nanos(DEFAULT_RATE_HZ), 1_000_000);
    assert_eq!(rate_to_period_nanos(500), 2_000_000);
    assert_eq!(rate_to_period_nanos(0), 1_000_000_000);
    assert_eq!(period_nanos_to_rate(2_000_000), 500);
    assert_eq!(period_nanos_to_rate(0), 1_000_000_000);
    assert_eq!(period_nanos_to_rate(rate_to_period_nanos(250)), 250);
}

#[test]
fn zero_period_clamps_to_one_nanosecond() {
    assert_eq!(clamp_period_nanos(0), 1);
    assert_eq!(clamp_period_nanos(7), 7);
}

#[test]
fn durations_saturate_at_the_tracked_ceiling() {
    assert_eq!(duration_nanos_clamped(5), 5);
    assert_eq!(duration_nanos_clamped(u128::MAX), MAX_TRACKED_NS);
    assert_eq!(abs_diff_nanos(10, 3), 7);
    assert_eq!(abs_diff_nanos(3, 10), 7);
    assert_eq!(abs_diff_nanos(0, 5_000_000_000), MAX_TRACKED_NS);
}
