//! Recovery after the device chip restarts or the box releases the session: which hellos owe a
//! recovery, when a pending recovery next checks whether the clone is up, and how one ends.
//!
//! Times are nanoseconds on a monotonic clock the caller reads.

use crate::opcode::PROTO_VER;
use vstd::prelude::*;

verus! {

/// How often a recovery checks whether the clone is up at first.
pub const CLONE_POLL_NS: u64 = 50_000_000;
/// How often it checks once the clone has been down for a while (a box with no device).
pub const CLONE_POLL_SLOW_NS: u64 = 500_000_000;
/// How long a recovery polls at the fast rate.
pub const CLONE_POLL_CLOSE_NS: u64 = 5_000_000_000;
/// How long after a command that can re-present the clone the keepalive checks every slice.
pub const REPRESENT_WATCH_NS: u64 = 5_000_000_000;

/// Cause of a recovery.
#[derive(Debug, Clone, Copy, PartialEq, Eq, Structural)]
pub enum Cause {
    /// The device chip booted.
    Restart,
    /// The box released the session without a boot.
    Released,
}

/// Outcome of one recovery step.
#[derive(Debug, Clone, Copy, PartialEq, Eq, Structural)]
pub enum Outcome {
    Done,
    /// No clone yet, or no link: check again later.
    Wait,
    /// A hello came after the clone replied: another boot to recover from.
    Again,
}

/// `a + b`, or the largest `u64` past it.
pub open spec fn sat_add(a: u64, b: u64) -> u64 {
    if a + b > u64::MAX {
        u64::MAX
    } else {
        (a + b) as u64
    }
}

/// A pending recovery after a check at `now` found no clone: the next check comes one fast poll
/// later while the recovery is young (or the clock reads before its start), one slow poll later
/// once it has run past the fast window.
pub open spec fn pending_wait(p: Pending, now: u64) -> Pending {
    Pending {
        next: sat_add(
            now,
            if now >= p.since && now - p.since < CLONE_POLL_CLOSE_NS {
                CLONE_POLL_NS
            } else if now < p.since {
                CLONE_POLL_NS
            } else {
                CLONE_POLL_SLOW_NS
            },
        ),
        ..p
    }
}

/// A recovery the keepalive owes, and when it next checks whether the clone is up.
#[derive(Debug, Clone, Copy, PartialEq, Eq, Structural)]
pub struct Pending {
    pub cause: Cause,
    pub since: u64,
    pub next: u64,
}

impl Pending {
    /// A recovery owed from `now`, checking at once.
    pub fn new(cause: Cause, now: u64) -> (p: Pending)
        ensures
            p == (Pending { cause, since: now, next: now }),
    {
        Pending { cause, since: now, next: now }
    }

    /// Wait before the next check: briefly while the recovery is young, longer once the clone has
    /// been down a while.
    pub fn wait(&mut self, now: u64)
        ensures
            *final(self) == pending_wait(*old(self), now),
    {
        let young = if now >= self.since {
            now - self.since < CLONE_POLL_CLOSE_NS
        } else {
            true
        };
        let gap = if young { CLONE_POLL_NS } else { CLONE_POLL_SLOW_NS };
        self.next = now.saturating_add(gap);
    }
}

/// What to do with an unrequested hello.
#[derive(Debug, Clone, Copy, PartialEq, Eq, Structural)]
pub enum HelloVerdict {
    /// The box came back on another protocol: refuse the link with it.
    Refuse(u8),
    /// The box speaks this build's protocol: accept the link.
    Accept,
}

/// Device-chip hellos seen, the recovery one owes, and the session counter's last reading.
#[derive(Debug, Clone, Copy, PartialEq, Eq, Structural)]
pub struct Watch {
    /// The chip has replied on this link since its last hello, so another hello is a new boot.
    pub armed: bool,
    /// One boot sends two hellos; the second lands while this is set.
    pub recovering: bool,
    pub owed: bool,
    pub hellos: u64,
    /// A hello landed while a recovery was running: a boot to count when it ends.
    pub booted: bool,
    /// The session counter when last read; it moves on each release of host-set state.
    pub session: Option<u16>,
    /// Until when a command that can re-present the clone is being watched for.
    pub represent_until: Option<u64>,
}

/// One more, wrapping past the top.
pub open spec fn bump(n: u64) -> u64 {
    if n == u64::MAX {
        0
    } else {
        (n + 1) as u64
    }
}

impl Watch {
    /// Nothing seen.
    pub fn new() -> (w: Watch)
        ensures
            w == (Watch {
                armed: false,
                recovering: false,
                owed: false,
                hellos: 0,
                booted: false,
                session: None,
                represent_until: None,
            }),
    {
        Watch {
            armed: false,
            recovering: false,
            owed: false,
            hellos: 0,
            booted: false,
            session: None,
            represent_until: None,
        }
    }

    /// The chip replied: a later hello is a new boot.
    pub fn note_reply(&mut self)
        ensures
            *final(self) == (Watch { armed: true, ..*old(self) }),
    {
        self.armed = true;
    }

    /// An unrequested hello carrying protocol `proto`, on a link that was refused (`was_refused`)
    /// or not. A box on another protocol is refused, as a reconnect refuses one. Back on this
    /// build's protocol after a refusal, it is a boot like any other. A hello during a recovery is
    /// counted as a boot to note when it ends; otherwise a hello owes a recovery only when the chip
    /// replied since the last one.
    pub fn note_hello(&mut self, proto: u8, was_refused: bool) -> (v: HelloVerdict)
        ensures
            proto != PROTO_VER ==> v == HelloVerdict::Refuse(proto) && *final(self) == *old(self),
            proto == PROTO_VER ==> v == HelloVerdict::Accept && {
                let armed = old(self).armed || was_refused;
                if old(self).recovering {
                    *final(self) == (Watch { armed, hellos: bump(old(self).hellos), booted: true, ..*old(self) })
                } else if !armed {
                    *final(self) == (Watch { armed, ..*old(self) })
                } else {
                    *final(self) == (Watch {
                        armed: false,
                        recovering: true,
                        owed: true,
                        hellos: bump(old(self).hellos),
                        ..*old(self)
                    })
                }
            },
    {
        if proto != PROTO_VER {
            return HelloVerdict::Refuse(proto);
        }
        self.armed = self.armed || was_refused;
        if self.recovering {
            self.hellos = self.hellos.wrapping_add(1);
            self.booted = true;
            return HelloVerdict::Accept;
        }
        if !self.armed {
            return HelloVerdict::Accept;
        }
        self.armed = false;
        self.recovering = true;
        self.owed = true;
        self.hellos = self.hellos.wrapping_add(1);
        HelloVerdict::Accept
    }

    /// A reconnect found the chip freshly booted.
    pub fn begin(&mut self)
        ensures
            *final(self) == (Watch { recovering: true, owed: true, hellos: bump(old(self).hellos), ..*old(self) }),
    {
        self.recovering = true;
        self.owed = true;
        self.hellos = self.hellos.wrapping_add(1);
    }

    /// Take the owed recovery, if any; taking one starts it.
    pub fn take_owed(&mut self) -> (r: bool)
        ensures
            r == old(self).owed,
            *final(self) == (Watch { owed: false, recovering: old(self).recovering || old(self).owed, ..*old(self) }),
    {
        let r = self.owed;
        if r {
            self.recovering = true;
        }
        self.owed = false;
        r
    }

    /// End the recovery unless a hello arrived after `seen`, which is another boot.
    pub fn finish(&mut self, seen: u64) -> (r: bool)
        ensures
            r == (old(self).hellos == seen),
            r ==> *final(self) == (Watch { recovering: false, ..*old(self) }),
            !r ==> *final(self) == *old(self),
    {
        if self.hellos != seen {
            return false;
        }
        self.recovering = false;
        true
    }

    /// Record the session counter.
    pub fn note_session(&mut self, session: u16)
        ensures
            *final(self) == (Watch { session: Some(session), ..*old(self) }),
    {
        self.session = Some(session);
    }

    /// Whether the session counter last read `session`.
    pub fn session_is(&self, session: u16) -> (r: bool)
        ensures
            r == (self.session == Some(session)),
    {
        self.session == Some(session)
    }

    /// Record `session` and say whether it moved since the last reading (a first reading never
    /// has).
    pub fn session_moved(&mut self, session: u16) -> (r: bool)
        ensures
            r == (old(self).session matches Some(was) && was != session),
            *final(self) == (Watch { session: Some(session), ..*old(self) }),
    {
        let r = match self.session {
            Some(was) => was != session,
            None => false,
        };
        self.session = Some(session);
        r
    }

    /// A command went out at `now` that may present the clone again.
    pub fn expect_represent(&mut self, now: u64)
        ensures
            *final(self) == (Watch { represent_until: Some(sat_add(now, REPRESENT_WATCH_NS)), ..*old(self) }),
    {
        self.represent_until = Some(now.saturating_add(REPRESENT_WATCH_NS));
    }

    /// Whether a re-presentation is still being watched for at `now`.
    pub fn expecting_represent(&self, now: u64) -> (r: bool)
        ensures
            r == (self.represent_until matches Some(t) && now < t),
    {
        match self.represent_until {
            Some(t) => now < t,
            None => false,
        }
    }

    /// A release was seen: the recovery is running, and a second hello is part of it.
    pub fn begin_release(&mut self)
        ensures
            *final(self) == (Watch { recovering: true, ..*old(self) }),
    {
        self.recovering = true;
    }

    /// Take the boot seen during a recovery, if any.
    pub fn take_booted(&mut self) -> (r: bool)
        ensures
            r == old(self).booted,
            *final(self) == (Watch { booted: false, ..*old(self) }),
    {
        let r = self.booted;
        self.booted = false;
        r
    }

    /// A recovery's re-send stuck, with the session counter at `session` and the hello count at
    /// `seen` when the clone answered: the counter is recorded, a boot is counted when one was seen
    /// or the cause was a restart, and the recovery ends unless another hello came since.
    pub fn settle(&mut self, cause: Cause, seen: u64, session: u16) -> (r: (Outcome, bool))
        ensures
            r.1 == (old(self).booted || cause == Cause::Restart),
            r.0 == (if old(self).hellos == seen { Outcome::Done } else { Outcome::Again }),
            final(self).session == Some(session),
            !final(self).booted,
            final(self).recovering == (old(self).recovering && old(self).hellos != seen),
            final(self).hellos == old(self).hellos,
            final(self).armed == old(self).armed,
            final(self).owed == old(self).owed,
            final(self).represent_until == old(self).represent_until,
    {
        self.note_session(session);
        let booted = self.take_booted();
        let count = booted || cause == Cause::Restart;
        let outcome = if self.finish(seen) { Outcome::Done } else { Outcome::Again };
        (outcome, count)
    }
}

} // verus!
