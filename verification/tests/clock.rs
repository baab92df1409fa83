use medius::clock::{advance, coarse_due, duration_to_qpc, QpcGrid, QpcWait, TickGrid, TickWait, Timespec};

#[test]
fn advancing_carries_nanoseconds_into_seconds() {
    let d = Timespec { sec: 10, nsec: 999_500_000 };
    assert_eq!(advance(d, 0, 1_000_000), Timespec { sec: 11, nsec: 500_000 });
    assert_eq!(advance(d, 2, 0), Timespec { sec: 12, nsec: 999_500_000 });
    assert_eq!(advance(Timespec { sec: 0, nsec: 0 }, 0, 999_999_999), Timespec { sec: 0, nsec: 999_999_999 });
}

#[test]
fn the_first_tick_only_seeds_the_grid() {
    let mut g = TickGrid::new();
    let t0 = Timespec { sec: 5, nsec: 0 };
    assert_eq!(g.next(t0, 0, 50_000_000), TickWait::Seeded);
    assert_eq!(g.deadline, Some(t0));
}

#[test]
fn grid_deadlines_step_exactly_one_period() {
    let mut g = TickGrid::new();
    g.next(Timespec { sec: 1, nsec: 0 }, 0, 1_000_000);
    let mut last = Timespec { sec: 1, nsec: 0 };
    for i in 1..=100i64 {
        let late = Timespec { sec: 1 + i, nsec: 0 };
        match g.next(late, 0, 1_000_000) {
            TickWait::SleepUntil(d) => {
                assert_eq!(d.sec * 1_000_000_000 + d.nsec, 1_000_000_000 + i * 1_000_000);
                assert!(d.sec * 1_000_000_000 + d.nsec > last.sec * 1_000_000_000 + last.nsec);
                last = d;
            }
            TickWait::Seeded => panic!("seeded twice"),
        }
    }
}

#[test]
fn counter_ticks_from_nanoseconds() {
    assert_eq!(duration_to_qpc(1_000_000, 10_000_000), 10_000);
    assert_eq!(duration_to_qpc(999, 1_000_000), 0);
    assert_eq!(duration_to_qpc(u128::MAX, i64::MAX), i64::MAX);
}

#[test]
fn the_coarse_timer_leaves_a_quarter_millisecond_to_spin() {
    let freq = 10_000_000;
    assert_eq!(coarse_due(2_500, freq), None);
    assert_eq!(coarse_due(2_501, freq), Some(-1));
    assert_eq!(coarse_due(12_500, freq), Some(-10_000));
}

#[test]
fn the_counter_grid_catches_up_after_a_slow_tick() {
    let mut g = QpcGrid::new();
    assert_eq!(g.next(1_000, 100), QpcWait::Seeded);
    assert_eq!(g.next(1_040, 100), QpcWait::Wait { deadline: 1_100, remaining: 60 });
    assert_eq!(g.next(1_300, 100), QpcWait::CatchUp);
    assert_eq!(g.deadline, Some(1_200));
    assert_eq!(g.next(1_301, 100), QpcWait::CatchUp);
    assert_eq!(g.next(1_350, 100), QpcWait::Wait { deadline: 1_400, remaining: 50 });
    let mut top = QpcGrid { deadline: Some(i64::MAX - 1) };
    assert_eq!(top.next(0, 100), QpcWait::Wait { deadline: i64::MAX, remaining: i64::MAX });
}

#[test]
fn zero_period_is_clamped() {
    let period = medius::pacer::clamp_period_nanos(std::time::Duration::ZERO.as_nanos());
    assert!(std::time::Duration::from_nanos(period as u64) >= std::time::Duration::from_nanos(1));
}

#[test]
fn deadlines_advance_without_cumulative_drift() {
    // A grid woken exactly at each deadline: 100 one-millisecond ticks after the seed.
    let period_ns: i64 = 1_000_000;
    let n = 100i64;
    let mut g = TickGrid::new();
    let start = Timespec { sec: 3, nsec: 250_000 };
    assert_eq!(g.next(start, 0, period_ns as u32), TickWait::Seeded);
    let ns = |t: Timespec| t.sec * 1_000_000_000 + t.nsec;
    let mut last = start;
    for _ in 0..n {
        match g.next(last, 0, period_ns as u32) {
            TickWait::SleepUntil(d) => {
                assert!(ns(d) >= ns(last), "tick time must advance monotonically");
                last = d;
            }
            TickWait::Seeded => panic!("seeded twice"),
        }
    }
    let elapsed = ns(last) - ns(start);
    let ideal = period_ns * n;
    assert!(elapsed >= ideal - 5_000_000, "finished implausibly early");
    assert!(elapsed <= ideal + 80_000_000, "cumulative drift detected");
    assert_eq!(elapsed, ideal);
}
