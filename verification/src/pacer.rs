//! The movement pacer's arithmetic: the per-tick accumulator that coalesces pushes, folds in a
//! constant velocity and carries what does not fit the 16-bit wire field to the next tick, plus
//! the rate / period conversions of the tick clock and the timing-metric clamps.
//!
//! It paces frames; it never invents motion. Each tick drains the accumulator and emits at most
//! one `MOVE`; the remainder beyond the `i16` field stays for the next tick, so the total emitted
//! equals the total pushed.

use vstd::prelude::*;

verus! {

/// Default pacer rate (Hz): one frame per millisecond.
pub const DEFAULT_RATE_HZ: u32 = 1000;

/// Nanoseconds per second.
pub const NANOS_PER_SEC: u64 = 1_000_000_000;

/// The largest value the timing histograms track, in nanoseconds (one second).
pub const MAX_TRACKED_NS: u64 = 1_000_000_000;

/// `v` saturated into the `i32` range.
pub open spec fn sat_i32(v: int) -> i32 {
    if v > i32::MAX {
        i32::MAX
    } else if v < i32::MIN {
        i32::MIN
    } else {
        v as i32
    }
}

/// `v` clamped to the `i16` wire field.
pub open spec fn clamp_i16(v: int) -> i16 {
    if v > i16::MAX {
        i16::MAX
    } else if v < i16::MIN {
        i16::MIN
    } else {
        v as i16
    }
}

/// `a + d`, saturating at the `i32` range.
pub fn add_saturating(a: i32, d: i16) -> (r: i32)
    ensures
        r == sat_i32(a + d),
{
    let wide: i64 = a as i64 + d as i64;
    if wide > i32::MAX as i64 {
        i32::MAX
    } else if wide < i32::MIN as i64 {
        i32::MIN
    } else {
        wide as i32
    }
}

/// The state a pacer tick works on: the pending push total per axis and the constant velocity.
#[derive(Debug, Clone, Copy, PartialEq, Eq, Structural)]
pub struct Accumulator {
    acc_x: i32,
    acc_y: i32,
    vel_x: i16,
    vel_y: i16,
}

impl Default for Accumulator {
    fn default() -> (a: Accumulator)
        ensures
            a.pending_x() == 0,
            a.pending_y() == 0,
            a.velocity_x() == 0,
            a.velocity_y() == 0,
    {
        Accumulator::new()
    }
}

/// One tick on the abstract state `(pending x, pending y)` with velocity `(vx, vy)`: fold the
/// velocity in, then emit nothing on an all-zero total, else each axis clamped to the wire field,
/// keeping the remainder. Returns the new pending pair and the emission.
pub open spec fn tick_model(x0: i32, y0: i32, vx: i16, vy: i16) -> (i32, i32, Option<(i16, i16)>) {
    let x = sat_i32(x0 + vx);
    let y = sat_i32(y0 + vy);
    if x == 0 && y == 0 {
        (x, y, None)
    } else {
        let dx = clamp_i16(x as int);
        let dy = clamp_i16(y as int);
        ((x - dx) as i32, (y - dy) as i32, Some((dx, dy)))
    }
}

/// The total a velocity-free accumulator emits when ticked until it goes idle.
pub open spec fn drain_total(x: int, y: int) -> (int, int)
    decreases (if x >= 0 { x } else { -x }) + (if y >= 0 { y } else { -y }),
{
    if x == 0 && y == 0 {
        (0, 0)
    } else {
        let dx = clamp_i16(x) as int;
        let dy = clamp_i16(y) as int;
        let rest = drain_total(x - dx, y - dy);
        (dx + rest.0, dy + rest.1)
    }
}

impl Accumulator {
    /// The pending X total.
    pub closed spec fn pending_x(&self) -> i32 {
        self.acc_x
    }

    /// The pending Y total.
    pub closed spec fn pending_y(&self) -> i32 {
        self.acc_y
    }

    /// The constant per-tick X velocity.
    pub closed spec fn velocity_x(&self) -> i16 {
        self.vel_x
    }

    /// The constant per-tick Y velocity.
    pub closed spec fn velocity_y(&self) -> i16 {
        self.vel_y
    }

    /// An idle accumulator: nothing pending, no velocity.
    pub fn new() -> (a: Accumulator)
        ensures
            a.pending_x() == 0,
            a.pending_y() == 0,
            a.velocity_x() == 0,
            a.velocity_y() == 0,
    {
        Accumulator { acc_x: 0, acc_y: 0, vel_x: 0, vel_y: 0 }
    }

    /// Add a relative delta; pushes within one tick window coalesce into their sum (saturating at
    /// the `i32` range, which realistic streams never reach).
    pub fn push(&mut self, dx: i16, dy: i16)
        ensures
            final(self).pending_x() == sat_i32(old(self).pending_x() + dx),
            final(self).pending_y() == sat_i32(old(self).pending_y() + dy),
            final(self).velocity_x() == old(self).velocity_x(),
            final(self).velocity_y() == old(self).velocity_y(),
    {
        self.acc_x = add_saturating(self.acc_x, dx);
        self.acc_y = add_saturating(self.acc_y, dy);
    }

    /// Set a constant per-tick velocity, emitted every tick until changed or cleared.
    pub fn set_velocity(&mut self, vx: i16, vy: i16)
        ensures
            final(self).velocity_x() == vx,
            final(self).velocity_y() == vy,
            final(self).pending_x() == old(self).pending_x(),
            final(self).pending_y() == old(self).pending_y(),
    {
        self.vel_x = vx;
        self.vel_y = vy;
    }

    /// Clear the constant velocity; what is already pending still drains.
    pub fn clear_velocity(&mut self)
        ensures
            final(self).velocity_x() == 0,
            final(self).velocity_y() == 0,
            final(self).pending_x() == old(self).pending_x(),
            final(self).pending_y() == old(self).pending_y(),
    {
        self.vel_x = 0;
        self.vel_y = 0;
    }

    /// One tick's emission: fold the velocity in; `None` when both axes are then zero (an idle
    /// tick sends no frame), else each axis clamped to the `i16` field with the remainder kept for
    /// the next tick.
    pub fn tick_emit(&mut self) -> (r: Option<(i16, i16)>)
        ensures
            (final(self).pending_x(), final(self).pending_y(), r) == tick_model(
                old(self).pending_x(),
                old(self).pending_y(),
                old(self).velocity_x(),
                old(self).velocity_y(),
            ),
            final(self).velocity_x() == old(self).velocity_x(),
            final(self).velocity_y() == old(self).velocity_y(),
    {
        self.acc_x = add_saturating(self.acc_x, self.vel_x);
        self.acc_y = add_saturating(self.acc_y, self.vel_y);
        if self.acc_x == 0 && self.acc_y == 0 {
            return None;
        }
        let dx: i16 = if self.acc_x > i16::MAX as i32 {
            i16::MAX
        } else if self.acc_x < i16::MIN as i32 {
            i16::MIN
        } else {
            self.acc_x as i16
        };
        let dy: i16 = if self.acc_y > i16::MAX as i32 {
            i16::MAX
        } else if self.acc_y < i16::MIN as i32 {
            i16::MIN
        } else {
            self.acc_y as i16
        };
        self.acc_x = self.acc_x - dx as i32;
        self.acc_y = self.acc_y - dy as i32;
        Some((dx, dy))
    }
}

/// The facts of one tick, read off its model: what is emitted plus what stays equals the
/// accumulated total with the velocity folded in; a tick emits nothing exactly when that total is
/// zero on both axes; and every emitted field is the total clamped to the wire range.
pub proof fn lemma_tick_conserves(x0: i32, y0: i32, vx: i16, vy: i16)
    ensures
        ({
            let (nx, ny, out) = tick_model(x0, y0, vx, vy);
            let x = sat_i32(x0 + vx);
            let y = sat_i32(y0 + vy);
            &&& out is None <==> (x == 0 && y == 0)
            &&& out matches Some((dx, dy)) ==> {
                &&& nx + dx == x
                &&& ny + dy == y
                &&& dx == clamp_i16(x as int)
                &&& dy == clamp_i16(y as int)
            }
            &&& out is None ==> nx == 0 && ny == 0
        }),
{
}

/// Carry law: with no velocity, ticking until idle emits exactly the accumulated total, however
/// far past the 16-bit field it lies; nothing is lost to the clamp and nothing is invented.
pub proof fn lemma_drain_emits_total(x: int, y: int)
    ensures
        drain_total(x, y) == (x, y),
    decreases (if x >= 0 { x } else { -x }) + (if y >= 0 { y } else { -y }),
{
    if x == 0 && y == 0 {
    } else {
        let dx = clamp_i16(x) as int;
        let dy = clamp_i16(y) as int;
        lemma_drain_emits_total(x - dx, y - dy);
    }
}

/// The tick model on a velocity-free accumulator takes one step of the drain: one tick emits the
/// first step of `drain_total` and leaves the rest pending, and an idle tick has nothing left to
/// drain.
pub proof fn lemma_tick_is_drain_step(x0: i32, y0: i32)
    ensures
        ({
            let (nx, ny, out) = tick_model(x0, y0, 0, 0);
            &&& out matches Some((dx, dy)) ==> drain_total(x0 as int, y0 as int) == (
                dx + drain_total(nx as int, ny as int).0,
                dy + drain_total(nx as int, ny as int).1,
            )
            &&& out is None ==> drain_total(x0 as int, y0 as int) == (0int, 0int)
        }),
{
    let x = x0 as int;
    let y = y0 as int;
    assert(sat_i32(x0 + 0i16) == x0);
    assert(sat_i32(y0 + 0i16) == y0);
    if x == 0 && y == 0 {
    } else {
        let dx = clamp_i16(x) as int;
        let dy = clamp_i16(y) as int;
        assert(drain_total(x, y) == (dx + drain_total(x - dx, y - dy).0, dy + drain_total(
            x - dx,
            y - dy,
        ).1));
    }
}

/// Velocity law: with nothing pending, every tick emits exactly the velocity, or nothing when the
/// velocity is zero, and leaves nothing pending.
pub proof fn lemma_velocity_every_tick(vx: i16, vy: i16)
    ensures
        ({
            let (nx, ny, out) = tick_model(0, 0, vx, vy);
            &&& (vx == 0 && vy == 0) ==> out is None
            &&& !(vx == 0 && vy == 0) ==> out == Some((vx, vy))
            &&& nx == 0 && ny == 0
        }),
{
}

/// The tick period in nanoseconds for a rate in Hz; a zero rate is taken as 1 Hz so the period is
/// never a division by zero.
pub fn rate_to_period_nanos(hz: u32) -> (ns: u64)
    ensures
        hz == 0 ==> ns == NANOS_PER_SEC,
        hz > 0 ==> ns == NANOS_PER_SEC / (hz as u64),
{
    let hz: u64 = if hz == 0 { 1 } else { hz as u64 };
    NANOS_PER_SEC / hz
}

/// The rate in Hz a tick period (nanoseconds) runs at; a zero period is taken as one nanosecond.
pub fn period_nanos_to_rate(ns: u64) -> (hz: u32)
    ensures
        ns == 0 ==> hz == NANOS_PER_SEC as u32,
        ns > 0 ==> hz == (NANOS_PER_SEC / ns) as u32,
{
    let ns: u64 = if ns == 0 { 1 } else { ns };
    (NANOS_PER_SEC / ns) as u32
}

/// Rate law: a rate that divides a second evenly reads back unchanged from its period, so
/// setting such a rate and asking for it returns the same number.
pub proof fn lemma_rate_round_trip(hz: u32)
    requires
        1 <= hz <= NANOS_PER_SEC,
        NANOS_PER_SEC % (hz as u64) == 0,
    ensures
        NANOS_PER_SEC / (NANOS_PER_SEC / (hz as u64)) == hz,
{
    let p = NANOS_PER_SEC / (hz as u64);
    assert(p * hz == NANOS_PER_SEC) by (nonlinear_arith)
        requires
            p == NANOS_PER_SEC / (hz as u64),
            NANOS_PER_SEC % (hz as u64) == 0,
            hz >= 1,
    ;
    assert(p >= 1) by (nonlinear_arith)
        requires
            p * hz == NANOS_PER_SEC,
            hz >= 1,
    ;
    assert(NANOS_PER_SEC / p == hz) by (nonlinear_arith)
        requires
            p * hz == NANOS_PER_SEC,
            p >= 1,
    ;
}

/// A tick period clamped to at least one nanosecond, so the deadline grid always advances.
pub fn clamp_period_nanos(ns: u128) -> (r: u128)
    ensures
        ns == 0 ==> r == 1,
        ns > 0 ==> r == ns,
{
    if ns == 0 {
        1
    } else {
        ns
    }
}

/// A duration in nanoseconds clamped to [`MAX_TRACKED_NS`], so a huge stall saturates the
/// histogram ceiling rather than failing the record.
pub fn duration_nanos_clamped(ns: u128) -> (r: u64)
    ensures
        ns <= MAX_TRACKED_NS ==> r == ns,
        ns > MAX_TRACKED_NS ==> r == MAX_TRACKED_NS,
{
    if ns > MAX_TRACKED_NS as u128 {
        MAX_TRACKED_NS
    } else {
        ns as u64
    }
}

/// `|a - b|` in nanoseconds, clamped as [`duration_nanos_clamped`].
pub fn abs_diff_nanos(a: u128, b: u128) -> (r: u64)
    ensures
        r as int == (if (if a >= b { a - b } else { b - a }) > MAX_TRACKED_NS {
            MAX_TRACKED_NS as int
        } else {
            if a >= b { a - b } else { b - a }
        }),
{
    let d: u128 = if a >= b { a - b } else { b - a };
    duration_nanos_clamped(d)
}

} // verus!
