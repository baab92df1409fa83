//! The pacer's tick grid: each deadline is the previous one plus exactly one period, never "now plus
//! a period", so a late wake does not push the following ticks out and error does not accumulate.
//! The first tick only seeds the grid.
//!
//! Two clocks carry the grid: a `CLOCK_MONOTONIC` deadline kept as seconds and nanoseconds, and a
//! performance-counter deadline kept in counter ticks, with the arithmetic that arms a coarse
//! timer short of it. Reading the clock and sleeping are the caller's.

use vstd::prelude::*;

verus! {

/// Nanoseconds in a second.
pub const NANOS_PER_SEC: i64 = 1_000_000_000;

/// A monotonic-clock reading: whole seconds and the nanoseconds past them.
#[derive(Debug, Clone, Copy, PartialEq, Eq, Structural)]
pub struct Timespec {
    /// Whole seconds.
    pub sec: i64,
    /// Nanoseconds past `sec`.
    pub nsec: i64,
}

/// The instant a reading names, in nanoseconds.
pub open spec fn ts_nanos(t: Timespec) -> int {
    t.sec * NANOS_PER_SEC + t.nsec
}

/// A reading at or after the clock's origin whose nanoseconds are below one second.
pub open spec fn normalized(t: Timespec) -> bool {
    0 <= t.sec && 0 <= t.nsec < NANOS_PER_SEC
}

/// `deadline` advanced by a period of `secs` seconds and `subsec` nanoseconds, the nanoseconds
/// carried into the seconds.
pub fn advance(deadline: Timespec, secs: u64, subsec: u32) -> (r: Timespec)
    requires
        normalized(deadline),
        subsec < NANOS_PER_SEC,
        deadline.sec + secs + 1 <= i64::MAX,
    ensures
        normalized(r),
        ts_nanos(r) == ts_nanos(deadline) + secs * NANOS_PER_SEC + subsec,
{
    let mut nsec = deadline.nsec + subsec as i64;
    let mut sec = deadline.sec + secs as i64;
    if nsec >= NANOS_PER_SEC {
        nsec = nsec - NANOS_PER_SEC;
        sec = sec + 1;
    }
    Timespec { sec, nsec }
}

/// What a tick waits for.
#[derive(Debug, Clone, Copy, PartialEq, Eq, Structural)]
pub enum TickWait {
    /// The first tick: the grid starts now, with no wait.
    Seeded,
    /// Sleep until this absolute deadline.
    SleepUntil(Timespec),
}

/// The monotonic-clock tick grid.
#[derive(Debug, Clone, Copy, PartialEq, Eq, Structural)]
pub struct TickGrid {
    /// The last deadline, once the grid is seeded.
    pub deadline: Option<Timespec>,
}

impl TickGrid {
    /// A grid not yet seeded.
    pub fn new() -> (g: TickGrid)
        ensures
            g.deadline is None,
    {
        TickGrid { deadline: None }
    }

    /// The next tick at clock reading `now`, for a period of `secs` seconds and `subsec`
    /// nanoseconds: the first seeds the grid at `now`; every later one is the previous deadline
    /// plus exactly one period, whatever `now` reads.
    pub fn next(&mut self, now: Timespec, secs: u64, subsec: u32) -> (w: TickWait)
        requires
            normalized(now),
            old(self).deadline matches Some(d) ==> normalized(d) && d.sec + secs + 1 <= i64::MAX,
            subsec < NANOS_PER_SEC,
        ensures
            match old(self).deadline {
                None => w == TickWait::Seeded && final(self).deadline == Some(now),
                Some(d) => final(self).deadline matches Some(n) && w == TickWait::SleepUntil(n)
                    && normalized(n) && ts_nanos(n) == ts_nanos(d) + secs * NANOS_PER_SEC + subsec,
            },
    {
        match self.deadline {
            None => {
                self.deadline = Some(now);
                TickWait::Seeded
            },
            Some(d) => {
                let n = advance(d, secs, subsec);
                self.deadline = Some(n);
                TickWait::SleepUntil(n)
            },
        }
    }
}

/// Drift law: `n` ticks after seeding at `t0`, whatever the wake-ups read, the deadline is
/// `t0 + n` periods.
pub proof fn lemma_grid_drift_free(t0: int, deadlines: Seq<int>, period: int)
    requires
        deadlines.len() > 0,
        deadlines[0] == t0,
        forall|i: int| 0 < i < deadlines.len() ==> #[trigger] deadlines[i] == deadlines[i - 1] + period,
    ensures
        forall|i: int| 0 <= i < deadlines.len() ==> #[trigger] deadlines[i] == t0 + i * period,
    decreases deadlines.len(),
{
    if deadlines.len() > 1 {
        let prefix = deadlines.drop_last();
        assert forall|i: int| 0 < i < prefix.len() implies #[trigger] prefix[i] == prefix[i - 1] + period by {
            assert(prefix[i] == deadlines[i]);
        }
        lemma_grid_drift_free(t0, prefix, period);
        assert forall|i: int| 0 <= i < deadlines.len() implies #[trigger] deadlines[i] == t0 + i * period by {
            if i < prefix.len() {
                assert(prefix[i] == deadlines[i]);
            } else {
                assert(deadlines[i - 1] == prefix[i - 1]);
                assert(t0 + (i - 1) * period + period == t0 + i * period) by (nonlinear_arith);
            }
        }
    }
}

/// A duration of `nanos` in counter ticks at `freq` ticks a second, rounded down, saturating at
/// the largest `i64`.
pub open spec fn qpc_ticks(nanos: u128, freq: i64) -> int {
    let prod = if nanos * freq > u128::MAX { u128::MAX as int } else { nanos * freq };
    let t = prod / 1_000_000_000;
    if t > i64::MAX {
        i64::MAX as int
    } else {
        t
    }
}

/// A duration in counter ticks.
pub fn duration_to_qpc(nanos: u128, freq: i64) -> (t: i64)
    requires
        freq > 0,
    ensures
        t == qpc_ticks(nanos, freq),
{
    let f = freq as u128;
    let prod: u128 = if nanos > u128::MAX / f {
        assert(nanos * f > u128::MAX) by (nonlinear_arith)
            requires
                nanos > u128::MAX / f,
                f > 0,
        ;
        u128::MAX
    } else {
        assert(nanos * f <= u128::MAX) by (nonlinear_arith)
            requires
                nanos <= u128::MAX / f,
                f > 0,
        ;
        nanos * f
    };
    let ticks = prod / 1_000_000_000u128;
    if ticks > i64::MAX as u128 {
        i64::MAX
    } else {
        ticks as i64
    }
}

/// The relative due time, in negative 100-nanosecond units, for which the coarse timer is armed
/// when `remaining` counter ticks are left at `freq` ticks a second: all but the last quarter
/// millisecond, which is left to a spin; none when no more than that is left.
pub open spec fn coarse_due_spec(remaining: i64, freq: i64) -> Option<i64> {
    let margin = freq / 4000;
    let coarse = remaining - margin;
    if coarse <= 0 {
        None
    } else {
        let hundred_ns = coarse * 10_000_000 / (freq as int);
        Some((if hundred_ns > i64::MAX { -i64::MAX } else { -hundred_ns }) as i64)
    }
}

/// The coarse timer's relative due time, if it is worth arming.
pub fn coarse_due(remaining: i64, freq: i64) -> (d: Option<i64>)
    requires
        freq > 0,
        remaining > 0,
    ensures
        d == coarse_due_spec(remaining, freq),
{
    let margin = freq / 4000;
    let coarse = remaining - margin;
    if coarse <= 0 {
        return None;
    }
    let hundred_ns: i128 = (coarse as i128) * 10_000_000i128 / (freq as i128);
    assert(hundred_ns >= 0) by (nonlinear_arith)
        requires
            coarse > 0,
            freq > 0,
            hundred_ns == (coarse as int) * 10_000_000 / (freq as int),
    ;
    if hundred_ns > i64::MAX as i128 {
        Some(-i64::MAX)
    } else {
        Some(-(hundred_ns as i64))
    }
}

/// What a counter-clock tick does.
#[derive(Debug, Clone, Copy, PartialEq, Eq, Structural)]
pub enum QpcWait {
    /// The first tick: the grid starts now.
    Seeded,
    /// The deadline has already passed: no wait, the grid catches up.
    CatchUp,
    /// Wait `remaining` ticks, until counter value `deadline`.
    Wait { deadline: i64, remaining: i64 },
}

/// The counter-clock tick grid.
#[derive(Debug, Clone, Copy, PartialEq, Eq, Structural)]
pub struct QpcGrid {
    /// The last deadline, once the grid is seeded.
    pub deadline: Option<i64>,
}

impl QpcGrid {
    /// A grid not yet seeded.
    pub fn new() -> (g: QpcGrid)
        ensures
            g.deadline is None,
    {
        QpcGrid { deadline: None }
    }

    /// The next tick at counter value `now` with a period of `period` ticks: the first seeds the
    /// grid; every later deadline is the previous one plus the period (saturating), and the wait is
    /// what is left of it, if anything.
    pub fn next(&mut self, now: i64, period: i64) -> (w: QpcWait)
        requires
            now >= 0,
            period >= 0,
            old(self).deadline matches Some(d) ==> d >= 0,
        ensures
            final(self).deadline matches Some(d) && d >= 0,
            match old(self).deadline {
                None => w == QpcWait::Seeded && final(self).deadline == Some(now),
                Some(prev) => {
                    let next = if prev + period > i64::MAX { i64::MAX as int } else { prev + period };
                    &&& final(self).deadline == Some(next as i64)
                    &&& if next - now <= 0 {
                        w == QpcWait::CatchUp
                    } else {
                        w == (QpcWait::Wait { deadline: next as i64, remaining: (next - now) as i64 })
                    }
                },
            },
    {
        match self.deadline {
            None => {
                self.deadline = Some(now);
                QpcWait::Seeded
            },
            Some(prev) => {
                let next = if prev > i64::MAX - period { i64::MAX } else { prev + period };
                self.deadline = Some(next);
                let remaining = next - now;
                if remaining <= 0 {
                    QpcWait::CatchUp
                } else {
                    QpcWait::Wait { deadline: next, remaining }
                }
            },
        }
    }
}

} // verus!
