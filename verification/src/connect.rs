//! Opening a box and finding it again: the handshake's version probe and protocol check, the
//! rescan that picks candidate ports by serial and adopts only the same box on this build's
//! protocol, and the backoff between automatic reconnect attempts.
//!
//! The queries, the port scan and the sleeps are the caller's; these are the decisions between
//! them.

use crate::error::Error;
use crate::opcode::PROTO_VER;
use crate::types::{PortInfo, Version};
use vstd::prelude::*;

verus! {

/// How many version probes the handshake sends before giving up.
pub const HANDSHAKE_ATTEMPTS: usize = 5;

/// How long, in milliseconds, each handshake probe waits for its reply.
pub const HANDSHAKE_ATTEMPT_TIMEOUT_MS: u64 = 250;

/// The first pause, in milliseconds, between automatic reconnect attempts.
pub const AUTO_RECONNECT_MIN_MS: u64 = 100;

/// The longest pause, in milliseconds, between automatic reconnect attempts.
pub const AUTO_RECONNECT_MAX_MS: u64 = 2000;

/// What one version probe came back with.
#[derive(Debug)]
pub enum ProbeReply {
    /// A reply that parsed as a version.
    Version(Version),
    /// A reply that did not parse as a version.
    Unparseable,
    /// An error: a timeout is retried, anything else ends the handshake.
    Failed(Error),
}

/// What the handshake does after a probe.
#[derive(Debug)]
pub enum ProbeStep {
    /// The box answered with this version.
    Done(Version),
    /// Send another probe.
    Retry,
    /// The handshake fails with this error.
    Fail(Error),
}

/// The handshake's version probe: up to [`HANDSHAKE_ATTEMPTS`] queries, each retried on a timeout or
/// an unparseable reply.
#[derive(Debug, Clone, Copy, PartialEq, Eq, Structural)]
pub struct VersionProbe {
    /// Probes answered so far.
    pub attempts: usize,
}

/// The step after probe number `attempts` (counting from one) came back with `reply`.
pub open spec fn probe_step(attempts: int, reply: ProbeReply) -> ProbeStep {
    match reply {
        ProbeReply::Version(v) => ProbeStep::Done(v),
        ProbeReply::Failed(e) => if e is QueryTimeout {
            if attempts >= HANDSHAKE_ATTEMPTS {
                ProbeStep::Fail(Error::NoReply)
            } else {
                ProbeStep::Retry
            }
        } else {
            ProbeStep::Fail(e)
        },
        ProbeReply::Unparseable => if attempts >= HANDSHAKE_ATTEMPTS {
            ProbeStep::Fail(Error::NoReply)
        } else {
            ProbeStep::Retry
        },
    }
}

impl VersionProbe {
    /// A probe with nothing sent yet.
    pub fn new() -> (p: VersionProbe)
        ensures
            p.attempts == 0,
    {
        VersionProbe { attempts: 0 }
    }

    /// Take the reply to the next probe. A version ends the handshake; an error other than a
    /// timeout ends it with that error; a timeout or an unparseable reply asks for another probe,
    /// until the last attempt, after which the box gave no reply.
    pub fn on_reply(&mut self, reply: ProbeReply) -> (s: ProbeStep)
        requires
            old(self).attempts < HANDSHAKE_ATTEMPTS,
        ensures
            final(self).attempts == old(self).attempts + 1,
            s == probe_step(final(self).attempts as int, reply),
    {
        self.attempts = self.attempts + 1;
        match reply {
            ProbeReply::Version(v) => ProbeStep::Done(v),
            ProbeReply::Failed(e) => {
                if matches!(e, Error::QueryTimeout) {
                    if self.attempts >= HANDSHAKE_ATTEMPTS {
                        ProbeStep::Fail(Error::NoReply)
                    } else {
                        ProbeStep::Retry
                    }
                } else {
                    ProbeStep::Fail(e)
                }
            },
            ProbeReply::Unparseable => {
                if self.attempts >= HANDSHAKE_ATTEMPTS {
                    ProbeStep::Fail(Error::NoReply)
                } else {
                    ProbeStep::Retry
                }
            },
        }
    }
}

/// The handshake's verdict on the version a box reported: accepted when it speaks this build's
/// protocol, refused with the version it reported otherwise.
pub fn check_proto(v: Version) -> (r: Result<Version, Error>)
    ensures
        v.proto_ver == PROTO_VER ==> r == Ok::<Version, Error>(v),
        v.proto_ver != PROTO_VER ==> r == Err::<Version, Error>(Error::BadProtoVer { got: v.proto_ver }),
{
    if v.proto_ver != PROTO_VER {
        Err(Error::BadProtoVer { got: v.proto_ver })
    } else {
        Ok(v)
    }
}

/// The pause after a failed automatic reconnect that followed a pause of `ms`: doubled, capped at
/// [`AUTO_RECONNECT_MAX_MS`].
pub fn next_backoff_ms(ms: u64) -> (r: u64)
    ensures
        r == (if 2 * ms < AUTO_RECONNECT_MAX_MS { 2 * ms } else { AUTO_RECONNECT_MAX_MS as int }),
{
    if ms >= AUTO_RECONNECT_MAX_MS / 2 {
        AUTO_RECONNECT_MAX_MS
    } else {
        let d = ms * 2;
        if d < AUTO_RECONNECT_MAX_MS {
            d
        } else {
            AUTO_RECONNECT_MAX_MS
        }
    }
}

/// Backoff law: starting from the first pause, every pause stays between the first and the cap,
/// and never shrinks.
pub proof fn lemma_backoff_bounded(ms: u64)
    requires
        AUTO_RECONNECT_MIN_MS <= ms <= AUTO_RECONNECT_MAX_MS,
    ensures
        ({
            let r = if 2 * ms < AUTO_RECONNECT_MAX_MS { 2 * ms } else { AUTO_RECONNECT_MAX_MS as int };
            &&& AUTO_RECONNECT_MIN_MS <= r <= AUTO_RECONNECT_MAX_MS
            &&& ms <= r
        }),
{
}

/// Whether a port's serial is `serial`.
pub open spec fn serial_is(p: PortInfo, serial: Seq<char>) -> bool {
    p.serial matches Some(s) && s@ == serial
}

/// Whether some port's serial is `serial`.
pub open spec fn any_serial_is(ports: Seq<PortInfo>, serial: Seq<char>) -> bool {
    exists|i: int| 0 <= i < ports.len() && serial_is(ports[i], serial)
}

/// Whether the rescan narrows to the ports with the box's serial: only when the box's serial is
/// known and some port has it.
pub open spec fn narrows(known: Option<String>, ports: Seq<PortInfo>) -> bool {
    known matches Some(s) && any_serial_is(ports, s@)
}

/// Whether port `i` is a rescan candidate.
pub open spec fn is_candidate(known: Option<String>, ports: Seq<PortInfo>, i: int) -> bool {
    narrows(known, ports) ==> serial_is(ports[i], known->Some_0@)
}

fn port_has_serial(p: &PortInfo, s: &String) -> (r: bool)
    ensures
        r == serial_is(*p, s@),
{
    match &p.serial {
        Some(t) => *t == *s,
        None => false,
    }
}

/// The ports a rescan tries, by position, in scan order: with the box's serial known, the ports
/// that have it; when none has it (or no serial is known), every port, the device chip's MAC then
/// telling the box apart.
pub fn reconnect_candidates(known: &Option<String>, ports: &Vec<PortInfo>) -> (r: Vec<usize>)
    ensures
        forall|k: int| 0 <= k < r.len() ==> r[k] < ports.len(),
        forall|a: int, b: int| 0 <= a < b < r.len() ==> r[a] < r[b],
        forall|i: int|
            0 <= i < ports.len() ==> (r@.contains(i as usize) <==> is_candidate(*known, ports@, i)),
{
    let mut narrow = false;
    if let Some(s) = known {
        let mut i: usize = 0;
        while i < ports.len()
            invariant
                i <= ports.len(),
                !narrow ==> forall|j: int| 0 <= j < i ==> !serial_is(#[trigger] ports@[j], s@),
                narrow ==> any_serial_is(ports@, s@),
            decreases ports.len() - i,
        {
            if port_has_serial(&ports[i], s) {
                narrow = true;
            }
            i = i + 1;
        }
    }
    assert(narrow == narrows(*known, ports@));
    let mut out: Vec<usize> = Vec::new();
    let mut i: usize = 0;
    while i < ports.len()
        invariant
            i <= ports.len(),
            narrow == narrows(*known, ports@),
            forall|k: int| 0 <= k < out.len() ==> out[k] < i,
            forall|a: int, b: int| 0 <= a < b < out.len() ==> out[a] < out[b],
            forall|j: int|
                0 <= j < i ==> (out@.contains(j as usize) <==> is_candidate(*known, ports@, j)),
        decreases ports.len() - i,
    {
        let take = if narrow {
            match known {
                Some(s) => port_has_serial(&ports[i], s),
                None => true,
            }
        } else {
            true
        };
        let ghost before = out@;
        if take {
            out.push(i);
        }
        proof {
            assert forall|j: int| 0 <= j < i + 1 implies (out@.contains(j as usize) <==> is_candidate(
                *known,
                ports@,
                j,
            )) by {
                if j < i {
                    if before.contains(j as usize) {
                        let k = choose|k: int| 0 <= k < before.len() && before[k] == j as usize;
                        assert(out@[k] == j as usize);
                    }
                    if out@.contains(j as usize) {
                        let k = choose|k: int| 0 <= k < out@.len() && out@[k] == j as usize;
                        if k < before.len() {
                            assert(before[k] == j as usize);
                        }
                    }
                } else {
                    if take {
                        assert(out@[out@.len() - 1] == i);
                    } else {
                        if out@.contains(j as usize) {
                            let k = choose|k: int| 0 <= k < out@.len() && out@[k] == j as usize;
                            assert(before[k] < i);
                        }
                    }
                }
            }
        }
        i = i + 1;
    }
    out
}

/// Whether two MACs are the same.
fn mac_eq(a: &[u8; 6], b: &[u8; 6]) -> (r: bool)
    ensures
        r == (a@ == b@),
{
    let mut i: usize = 0;
    while i < 6
        invariant
            i <= 6,
            a@.len() == 6,
            b@.len() == 6,
            forall|j: int| 0 <= j < i ==> a@[j] == b@[j],
        decreases 6 - i,
    {
        if a[i] != b[i] {
            return false;
        }
        i = i + 1;
    }
    assert(a@ =~= b@);
    true
}

/// What the rescan does with a reopened port.
#[derive(Debug, Clone, Copy, PartialEq, Eq, Structural)]
pub enum AdoptVerdict {
    /// Another box (its MAC differs from the recorded one, or it did not say): try the next port.
    Skip,
    /// This box, but on another protocol: remember the version and try the next port.
    Refuse(u8),
    /// Take this port.
    Adopt,
}

/// The verdict on a port that reported `version` (if it answered), given the MAC on record.
pub open spec fn adopt_verdict(version: Option<Version>, identity: Option<[u8; 6]>) -> AdoptVerdict {
    if identity is Some && (version is None || version->Some_0.mac@ != identity->Some_0@) {
        AdoptVerdict::Skip
    } else if version is Some && version->Some_0.proto_ver != PROTO_VER {
        AdoptVerdict::Refuse(version->Some_0.proto_ver)
    } else {
        AdoptVerdict::Adopt
    }
}

/// The rescan over reopened ports: it remembers the last refused protocol version so that, when no
/// port is adopted, the failure names it.
#[derive(Debug, Clone, Copy, PartialEq, Eq, Structural)]
pub struct AdoptScan {
    /// The version of the last port refused for its protocol, if any.
    pub refused: Option<u8>,
}

impl AdoptScan {
    /// A scan that has seen no port.
    pub fn new() -> (s: AdoptScan)
        ensures
            s.refused is None,
    {
        AdoptScan { refused: None }
    }

    /// Judge the next port. With a MAC on record, a port whose box reports another MAC (or
    /// nothing) is skipped; a box on another protocol is refused; anything else is adopted.
    pub fn consider(&mut self, version: &Option<Version>, identity: &Option<[u8; 6]>) -> (v: AdoptVerdict)
        ensures
            v == adopt_verdict(*version, *identity),
            v matches AdoptVerdict::Refuse(got) ==> final(self).refused == Some(got),
            !(v is Refuse) ==> *final(self) == *old(self),
    {
        if let Some(id) = identity {
            match version {
                None => {
                    return AdoptVerdict::Skip;
                },
                Some(v) => {
                    if !mac_eq(&v.mac, id) {
                        return AdoptVerdict::Skip;
                    }
                },
            }
        }
        if let Some(v) = version {
            if v.proto_ver != PROTO_VER {
                self.refused = Some(v.proto_ver);
                return AdoptVerdict::Refuse(v.proto_ver);
            }
        }
        AdoptVerdict::Adopt
    }

    /// The error when no port was adopted: the last refused protocol version if there was one,
    /// else no box found.
    pub fn failure(&self) -> (e: Error)
        ensures
            self.refused matches Some(got) ==> e == (Error::BadProtoVer { got }),
            self.refused is None ==> (e is NotFound),
    {
        match self.refused {
            Some(got) => Error::BadProtoVer { got },
            None => Error::NotFound,
        }
    }
}

} // verus!
