//! The keepalive's decisions: when to run an owed recovery, when to look for a session release,
//! and when to re-send held state under the firmware's silence auto-clear.
//!
//! The keepalive thread performs each step this module names (a recovery step, a release check, a
//! sleep, a re-send) and hands the result back. Times are nanoseconds on a monotonic clock.

use crate::restart::{pending_wait, sat_add, Cause, Outcome, Pending};
use vstd::prelude::*;

verus! {

/// The longest the keepalive sleeps before looking at its stop flag again.
pub const KEEPALIVE_STOP_POLL_NS: u64 = 20_000_000;

/// What the keepalive does next.
#[derive(Debug, Clone, Copy, PartialEq, Eq, Structural)]
pub enum KeepaliveStep {
    /// Run one recovery step for this cause, then report its outcome.
    Recover(Cause),
    /// Ask the box whether it released the session, then report the answer. `on_tick` is set when
    /// the cadence tick is due, so a negative answer goes on to the re-send.
    CheckRelease { on_tick: bool },
    /// Sleep this long, then ask again.
    Sleep(u64),
    /// A tick with nothing held: nothing to keep.
    Idle,
    /// Re-send the held catch table, rewrite rules and transforms; first read the ring if it holds
    /// the clip, so a later release marks lost only a clip the box had.
    Reassert { read_ring: bool },
    /// A release was found: a recovery is now owed; ask again at once.
    Again,
}

/// The keepalive's clock and the recovery it owes.
#[derive(Debug, Clone, Copy, PartialEq, Eq, Structural)]
pub struct Keepalive {
    /// When the next cadence tick is due.
    pub tick_at: u64,
    /// The recovery owed, if any.
    pub pending: Option<Pending>,
    /// The cadence: under the firmware's silence window, so a held override outlives it.
    pub cadence: u64,
}

/// The sleep before the next look: up to the tick, but no longer than the stop poll.
pub open spec fn nap(tick_at: u64, now: u64) -> u64 {
    if tick_at - now < KEEPALIVE_STOP_POLL_NS {
        (tick_at - now) as u64
    } else {
        KEEPALIVE_STOP_POLL_NS
    }
}

/// The keepalive after one look at `now`, and the step it takes: an owed recovery that is due runs
/// first; before the tick it sleeps, or checks for a release when a re-presenting command went out
/// and something is held; at the tick it does nothing when idle, else checks for a release or, with
/// a recovery pending, re-sends.
pub open spec fn next_spec(k: Keepalive, now: u64, owed: bool, idle: bool, expecting: bool, ring_held: bool) -> (
    Keepalive,
    KeepaliveStep,
) {
    let p = if owed {
        Some(Pending { cause: Cause::Restart, since: now, next: now })
    } else {
        k.pending
    };
    if p is Some && now >= p->0.next {
        (Keepalive { pending: p, ..k }, KeepaliveStep::Recover(p->0.cause))
    } else if now < k.tick_at {
        (
            Keepalive { pending: p, ..k },
            if p is None && !idle && expecting {
                KeepaliveStep::CheckRelease { on_tick: false }
            } else {
                KeepaliveStep::Sleep(nap(k.tick_at, now))
            },
        )
    } else {
        (
            Keepalive { tick_at: sat_add(now, k.cadence), pending: p, ..k },
            if idle {
                KeepaliveStep::Idle
            } else if p is None {
                KeepaliveStep::CheckRelease { on_tick: true }
            } else {
                KeepaliveStep::Reassert { read_ring: ring_held }
            },
        )
    }
}

/// Looks at `(now, expecting, ring_held)` in turn, with nothing held and no recovery handed over:
/// the keepalive after them, and the steps it took.
pub open spec fn idle_run(k: Keepalive, looks: Seq<(u64, bool, bool)>) -> (Keepalive, Seq<KeepaliveStep>)
    decreases looks.len(),
{
    if looks.len() == 0 {
        (k, Seq::empty())
    } else {
        let (k1, steps) = idle_run(k, looks.drop_last());
        let l = looks.last();
        let (k2, s) = next_spec(k1, l.0, false, true, l.1, l.2);
        (k2, steps.push(s))
    }
}

/// An idle host stays silent: with nothing held and no recovery owed or handed over, every look
/// only sleeps or finds nothing to keep, so no frame goes out and the firmware's silence
/// auto-clear still fires after a host crash.
pub proof fn lemma_idle_stays_silent(k: Keepalive, looks: Seq<(u64, bool, bool)>)
    requires
        k.pending is None,
    ensures
        idle_run(k, looks).0.pending is None,
        forall|i: int| 0 <= i < looks.len() ==> #[trigger] idle_run(k, looks).1[i] is Sleep
            || idle_run(k, looks).1[i] is Idle,
        idle_run(k, looks).1.len() == looks.len(),
    decreases looks.len(),
{
    if looks.len() > 0 {
        lemma_idle_stays_silent(k, looks.drop_last());
        let (k1, steps) = idle_run(k, looks.drop_last());
        assert forall|i: int| 0 <= i < looks.len() implies #[trigger] idle_run(k, looks).1[i] is Sleep
            || idle_run(k, looks).1[i] is Idle by {
            if i < looks.len() - 1 {
                assert(idle_run(k, looks).1[i] == steps[i]);
            }
        }
    }
}

impl Keepalive {
    /// A keepalive started at `now`, its first tick one cadence away.
    pub fn new(now: u64, cadence: u64) -> (k: Keepalive)
        ensures
            k == (Keepalive { tick_at: sat_add(now, cadence), pending: None, cadence }),
    {
        Keepalive { tick_at: now.saturating_add(cadence), pending: None, cadence }
    }

    /// The next step at `now`. `owed` is whether the restart watch handed over an owed recovery;
    /// `idle` whether nothing is held; `expecting` whether a command that can re-present the clone
    /// went out recently; `ring_held` whether the ring held the clip when last known.
    pub fn next(&mut self, now: u64, owed: bool, idle: bool, expecting: bool, ring_held: bool) -> (s: KeepaliveStep)
        ensures
            (*final(self), s) == next_spec(*old(self), now, owed, idle, expecting, ring_held),
    {
        if owed {
            self.pending = Some(Pending::new(Cause::Restart, now));
        }
        if let Some(p) = self.pending {
            if now >= p.next {
                return KeepaliveStep::Recover(p.cause);
            }
        }
        if now < self.tick_at {
            if self.pending.is_none() && !idle && expecting {
                return KeepaliveStep::CheckRelease { on_tick: false };
            }
            let left = self.tick_at - now;
            return KeepaliveStep::Sleep(if left < KEEPALIVE_STOP_POLL_NS { left } else { KEEPALIVE_STOP_POLL_NS });
        }
        self.tick_at = now.saturating_add(self.cadence);
        if idle {
            return KeepaliveStep::Idle;
        }
        if self.pending.is_none() {
            return KeepaliveStep::CheckRelease { on_tick: true };
        }
        KeepaliveStep::Reassert { read_ring: ring_held }
    }

    /// A recovery step finished at `now`: done clears it, another boot restarts it, and a wait
    /// schedules the next check.
    pub fn after_recovery(&mut self, outcome: Outcome, now: u64)
        requires
            old(self).pending is Some,
        ensures
            final(self).tick_at == old(self).tick_at,
            final(self).cadence == old(self).cadence,
            outcome == Outcome::Done ==> final(self).pending is None,
            outcome == Outcome::Again ==> final(self).pending == Some(Pending { cause: Cause::Restart, since: now, next: now }),
            outcome == Outcome::Wait ==> final(self).pending == Some(pending_wait(old(self).pending->0, now)),
    {
        match outcome {
            Outcome::Done => {
                self.pending = None;
            },
            Outcome::Again => {
                self.pending = Some(Pending::new(Cause::Restart, now));
            },
            Outcome::Wait => {
                if let Some(mut p) = self.pending {
                    p.wait(now);
                    self.pending = Some(p);
                }
            },
        }
    }

    /// A release check answered at `now`, for a look taken at `looked_at`: a release owes a recovery
    /// from `now` (the caller marks the watch recovering); otherwise a tick goes on to the re-send
    /// and an early check sleeps toward the tick from the look's reading.
    pub fn after_release_check(&mut self, released: bool, on_tick: bool, looked_at: u64, now: u64, ring_held: bool) -> (s: KeepaliveStep)
        ensures
            final(self).tick_at == old(self).tick_at,
            final(self).cadence == old(self).cadence,
            released ==> s == KeepaliveStep::Again && final(self).pending == Some(Pending { cause: Cause::Released, since: now, next: now }),
            !released ==> final(self).pending == old(self).pending && if on_tick {
                s == (KeepaliveStep::Reassert { read_ring: ring_held })
            } else if looked_at < old(self).tick_at {
                s == KeepaliveStep::Sleep(nap(old(self).tick_at, looked_at))
            } else {
                s == KeepaliveStep::Sleep(0)
            },
    {
        if released {
            self.pending = Some(Pending::new(Cause::Released, now));
            return KeepaliveStep::Again;
        }
        if on_tick {
            return KeepaliveStep::Reassert { read_ring: ring_held };
        }
        if looked_at < self.tick_at {
            let left = self.tick_at - looked_at;
            return KeepaliveStep::Sleep(if left < KEEPALIVE_STOP_POLL_NS { left } else { KEEPALIVE_STOP_POLL_NS });
        }
        KeepaliveStep::Sleep(0)
    }
}

} // verus!
