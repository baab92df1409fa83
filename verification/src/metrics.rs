//! Pacer timing metrics: per tick, the jitter (the realised interval's distance from the ideal
//! period) and the count of late ticks (an interval over the period); per emitted `MOVE`, the write
//! latency. Values are nanoseconds, recorded into fixed-range histograms that saturate at
//! [`MAX_TRACKED_NS`] rather than lose an outlier.
//!
//! Times are nanoseconds on a monotonic clock the caller reads.

use crate::pacer::{abs_diff_nanos, duration_nanos_clamped, MAX_TRACKED_NS};
use hdrhistogram::Histogram;
use vstd::multiset::Multiset;
use vstd::prelude::*;

verus! {

/// A histogram of nanosecond samples. Verus reads nothing inside it: what it holds is named by
/// [`samples`] and [`highest_trackable`], and the functions below say how each call changes them.
#[verifier::external_body]
pub struct NsHistogram {
    /// The histogram itself, read for its distribution (a floating-point summary, outside the
    /// verified code).
    pub histogram: Histogram<u64>,
}

/// The samples given to `record` on a histogram since it was made, each value as given. The
/// histogram itself keeps them only as bucket counts, at its significant-figure precision; this
/// names what was given, and nothing reads values back through it.
pub uninterp spec fn samples(h: NsHistogram) -> Multiset<u64>;

/// The highest value a histogram tracks.
pub uninterp spec fn highest_trackable(h: NsHistogram) -> u64;

/// Trusted: `Histogram::<u64>::new_with_bounds(low, high, sigfig)`. It refuses a zero `low`, a
/// `high` under twice `low`, more than five significant figures, and a `low` whose magnitude
/// leaves no room for the sub-buckets (its bit length plus at most 18 must stay within 63); the
/// `requires` keeps inside all of these, so the call succeeds. Claims the histogram is empty and
/// tracks up to `high`.
#[verifier::external_body]
fn new_ns_histogram(low: u64, high: u64, sigfig: u8) -> (h: NsHistogram)
    requires
        1 <= low < 0x4000_0000_0000,
        high >= 2 * low,
        sigfig <= 5,
    ensures
        samples(h) == Multiset::<u64>::empty(),
        highest_trackable(h) == high,
{
    NsHistogram { histogram: Histogram::new_with_bounds(low, high, sigfig).expect("bounds checked by the caller") }
}

/// Trusted: `Histogram::record`. A value up to the highest trackable one is recorded (the call
/// fails only past it, with auto-resize off); claims the sample joins the histogram and its range
/// is unchanged.
#[verifier::external_body]
fn record(h: &mut NsHistogram, value: u64)
    requires
        value <= highest_trackable(*old(h)),
    ensures
        samples(*final(h)) == samples(*old(h)).insert(value),
        highest_trackable(*final(h)) == highest_trackable(*old(h)),
{
    let _ = h.histogram.record(value);
}

/// A sample as recorded: at least one nanosecond, the histogram's lowest discernible value.
pub open spec fn sample_of(ns: u64) -> u64 {
    if ns < 1 {
        1
    } else {
        ns
    }
}

/// The time from `prev` to `now`, zero if the clock reads earlier.
pub open spec fn interval(prev: u64, now: u64) -> u64 {
    if now >= prev {
        (now - prev) as u64
    } else {
        0
    }
}

/// `|a - b|`, clamped to [`MAX_TRACKED_NS`].
pub open spec fn jitter_of(a: u64, b: u64) -> u64 {
    let d = if a >= b { a - b } else { b - a };
    if d > MAX_TRACKED_NS {
        MAX_TRACKED_NS
    } else {
        d as u64
    }
}

/// One more, wrapping past the top.
pub open spec fn bump(n: u64) -> u64 {
    if n == u64::MAX {
        0
    } else {
        (n + 1) as u64
    }
}

/// The live metrics the pacer thread writes.
pub struct PacerMetrics {
    ticks: u64,
    late_ticks: u64,
    jitter: NsHistogram,
    write_latency: NsHistogram,
    last_tick: Option<u64>,
}

impl PacerMetrics {
    /// Ticks run.
    pub closed spec fn tick_count(&self) -> u64 {
        self.ticks
    }

    /// Ticks whose interval overran the period.
    pub closed spec fn late_count(&self) -> u64 {
        self.late_ticks
    }

    /// The jitter samples recorded.
    pub closed spec fn jitter_samples(&self) -> Multiset<u64> {
        samples(self.jitter)
    }

    /// The write-latency samples recorded.
    pub closed spec fn latency_samples(&self) -> Multiset<u64> {
        samples(self.write_latency)
    }

    /// When the previous tick ran, if one has.
    pub closed spec fn previous_tick(&self) -> Option<u64> {
        self.last_tick
    }

    /// Both histograms track up to [`MAX_TRACKED_NS`].
    pub closed spec fn wf(&self) -> bool {
        highest_trackable(self.jitter) == MAX_TRACKED_NS && highest_trackable(self.write_latency)
            == MAX_TRACKED_NS
    }

    /// Nothing recorded.
    pub fn new() -> (m: PacerMetrics)
        ensures
            m.wf(),
            m.tick_count() == 0,
            m.late_count() == 0,
            m.jitter_samples() == Multiset::<u64>::empty(),
            m.latency_samples() == Multiset::<u64>::empty(),
            m.previous_tick() is None,
    {
        PacerMetrics {
            ticks: 0,
            late_ticks: 0,
            jitter: new_ns_histogram(1, MAX_TRACKED_NS, 3),
            write_latency: new_ns_histogram(1, MAX_TRACKED_NS, 3),
            last_tick: None,
        }
    }

    /// A tick ran at `now` against the ideal `period`: counted; from the second tick on, its
    /// jitter is recorded and an interval over the period counts as late. The first tick only sets
    /// the baseline.
    pub fn record_tick(&mut self, now: u64, period: u64)
        requires
            old(self).wf(),
        ensures
            final(self).wf(),
            final(self).tick_count() == bump(old(self).tick_count()),
            final(self).previous_tick() == Some(now),
            final(self).latency_samples() == old(self).latency_samples(),
            match old(self).previous_tick() {
                None => final(self).jitter_samples() == old(self).jitter_samples()
                    && final(self).late_count() == old(self).late_count(),
                Some(prev) => final(self).jitter_samples() == old(self).jitter_samples().insert(
                    sample_of(jitter_of(interval(prev, now), period)),
                ) && final(self).late_count() == (if interval(prev, now) > period {
                    bump(old(self).late_count())
                } else {
                    old(self).late_count()
                }),
            },
    {
        self.ticks = self.ticks.wrapping_add(1);
        if let Some(prev) = self.last_tick {
            let iv: u64 = if now >= prev { now - prev } else { 0 };
            let j = abs_diff_nanos(iv as u128, period as u128);
            record(&mut self.jitter, if j < 1 { 1 } else { j });
            if iv > period {
                self.late_ticks = self.late_ticks.wrapping_add(1);
            }
        }
        self.last_tick = Some(now);
    }

    /// One emitted `MOVE` took `latency` nanoseconds to write: recorded, clamped to the tracked
    /// range.
    pub fn record_write_latency(&mut self, latency: u128)
        requires
            old(self).wf(),
        ensures
            final(self).wf(),
            final(self).latency_samples() == old(self).latency_samples().insert(
                sample_of(if latency > MAX_TRACKED_NS { MAX_TRACKED_NS } else { latency as u64 }),
            ),
            final(self).jitter_samples() == old(self).jitter_samples(),
            final(self).tick_count() == old(self).tick_count(),
            final(self).late_count() == old(self).late_count(),
            final(self).previous_tick() == old(self).previous_tick(),
    {
        let ns = duration_nanos_clamped(latency);
        record(&mut self.write_latency, if ns < 1 { 1 } else { ns });
    }

    /// Ticks run.
    pub fn ticks(&self) -> (n: u64)
        ensures
            n == self.tick_count(),
    {
        self.ticks
    }

    /// Ticks whose interval overran the period.
    pub fn late_ticks(&self) -> (n: u64)
        ensures
            n == self.late_count(),
    {
        self.late_ticks
    }

    /// The jitter histogram, for a snapshot of its distribution.
    pub fn jitter(&self) -> (h: &NsHistogram)
        ensures
            samples(*h) == self.jitter_samples(),
    {
        &self.jitter
    }

    /// The write-latency histogram, for a snapshot of its distribution.
    pub fn write_latency(&self) -> (h: &NsHistogram)
        ensures
            samples(*h) == self.latency_samples(),
    {
        &self.write_latency
    }
}

} // verus!
