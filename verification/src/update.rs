//! Firmware update: the begin body the box checks the image against, the chunking and credit
//! accounting that writes one image, and the replies the box answers each step with.

use crate::bytes::extend_bytes;
use crate::error::Error;
use crate::opcode::{
    OTA_CHUNK, OTA_CREDIT, OTA_OP_BEGIN, OTA_OP_DATA, OTA_OP_END, UPD_ACK, UPD_OK, UPD_READY,
    UPD_ON_PROBATION, UPD_RESP_LEN, UPD_SEQ_GAP, UPD_STAGED, UPD_TOO_BIG,
};
use crate::raw::{le16, push_le16};
use crate::types::{update_target_byte, UpdateProgress, UpdateStatus, UpdateTarget};
use sha2::{Digest, Sha256};
use vstd::prelude::*;

verus! {

/// What `Sha256::digest` returns for `data`.
pub uninterp spec fn sha256_digest(data: Seq<u8>) -> Seq<u8>;

/// Trusted: `<sha2::Sha256 as Digest>::digest`. Claims the result is `sha256_digest` of the bytes,
/// and 32 bytes long (SHA-256's output size).
#[verifier::external_body]
pub(crate) fn sha256(data: &[u8]) -> (d: Vec<u8>)
    ensures
        d@ == sha256_digest(data@),
        d@.len() == 32,
{
    Sha256::digest(data).to_vec()
}

/// A 32-bit value, low byte first.
pub open spec fn le32(x: u32) -> Seq<u8> {
    seq![(x % 256) as u8, ((x / 256) % 256) as u8, ((x / 65536) % 256) as u8, (x / 16777216) as u8]
}

/// The begin body: the image length and the digest the box checks at the end.
pub open spec fn begin_body_spec(image: Seq<u8>) -> Seq<u8> {
    le32(image.len() as u32) + sha256_digest(image)
}

/// Append a 32-bit value, low byte first.
pub fn push_le32(out: &mut Vec<u8>, x: u32)
    ensures
        final(out)@ == old(out)@ + le32(x),
{
    out.push((x % 256) as u8);
    out.push(((x / 256) % 256) as u8);
    out.push(((x / 65536) % 256) as u8);
    out.push((x / 16777216) as u8);
    assert(out@ =~= old(out)@ + le32(x));
}

/// The image length and the digest the box checks at the end.
pub fn begin_body(image: &[u8]) -> (b: Vec<u8>)
    ensures
        b@ == begin_body_spec(image@),
        b@.len() == 36,
{
    let mut body: Vec<u8> = Vec::new();
    push_le32(&mut body, image.len() as u32);
    let d = sha256(image);
    extend_bytes(&mut body, d.as_slice());
    body
}

/// The data frame carrying `image[from..to]` as chunk `seq`: op, target, sequence, bytes.
pub open spec fn data_frame(target: UpdateTarget, seq: u16, image: Seq<u8>, from: int, to: int) -> Seq<u8> {
    seq![OTA_OP_DATA, update_target_byte(target)] + le16(seq) + image.subrange(from, to)
}

/// Chunking and credit accounting for one staged image: data frames go out until the box's credit
/// window is full or the image is out, then wait for the box's acknowledgement.
pub struct ChunkPlan<'a> {
    image: &'a [u8],
    target: UpdateTarget,
    credit: usize,
    seq: u16,
    sent: usize,
    unacked: usize,
}

impl<'a> ChunkPlan<'a> {
    /// The image being written.
    pub closed spec fn image(&self) -> Seq<u8> {
        self.image@
    }

    /// The chip being written.
    pub closed spec fn target(&self) -> UpdateTarget {
        self.target
    }

    /// Data frames the box takes before it acknowledges.
    pub closed spec fn credit(&self) -> nat {
        self.credit as nat
    }

    /// The next data frame's sequence number.
    pub closed spec fn seq(&self) -> u16 {
        self.seq
    }

    /// Image bytes sent.
    pub closed spec fn sent(&self) -> nat {
        self.sent as nat
    }

    /// Data frames sent since the last acknowledgement.
    pub closed spec fn unacked(&self) -> nat {
        self.unacked as nat
    }

    /// The plan's invariant: never past the image, never past the credit window, a window of at
    /// least one frame.
    pub open spec fn wf(&self) -> bool {
        self.sent() <= self.image().len() && 1 <= self.credit() && self.unacked() <= self.credit()
    }

    /// A plan for `image` on `target`, with the credit the box named at begin (its default when it
    /// named none).
    pub fn new(image: &'a [u8], target: UpdateTarget, credit: u32) -> (p: ChunkPlan<'a>)
        ensures
            p.wf(),
            p.image() == image@,
            p.target() == target,
            p.credit() == (if credit == 0 { OTA_CREDIT as nat } else { credit as nat }),
            p.seq() == 0,
            p.sent() == 0,
            p.unacked() == 0,
    {
        ChunkPlan {
            image,
            target,
            credit: if credit == 0 { OTA_CREDIT } else { credit as usize },
            seq: 0,
            sent: 0,
            unacked: 0,
        }
    }

    /// Whether the image is out and acknowledged.
    pub fn done(&self) -> (r: bool)
        ensures
            r == (self.sent() >= self.image().len() && self.unacked() == 0),
    {
        self.sent >= self.image.len() && self.unacked == 0
    }

    /// The next data frame, or `None` while the image is out or everything sent awaits
    /// acknowledgement. A frame carries at most one chunk, and the frames together carry the image
    /// in order.
    pub fn next_frame(&mut self) -> (r: Option<Vec<u8>>)
        requires
            old(self).wf(),
        ensures
            final(self).wf(),
            final(self).image() == old(self).image(),
            final(self).target() == old(self).target(),
            final(self).credit() == old(self).credit(),
            (old(self).sent() >= old(self).image().len() || old(self).unacked() >= old(self).credit())
                ==> r is None && *final(self) == *old(self),
            !(old(self).sent() >= old(self).image().len() || old(self).unacked() >= old(self).credit())
                ==> {
                let end = if old(self).sent() + OTA_CHUNK < old(self).image().len() {
                    old(self).sent() + OTA_CHUNK
                } else {
                    old(self).image().len() as int
                };
                &&& r matches Some(f) && f@ == data_frame(
                    old(self).target(),
                    old(self).seq(),
                    old(self).image(),
                    old(self).sent() as int,
                    end,
                )
                &&& final(self).sent() == end
                &&& final(self).unacked() == old(self).unacked() + 1
                &&& final(self).seq() == (if old(self).seq() == u16::MAX {
                    0
                } else {
                    (old(self).seq() + 1) as u16
                })
            },
    {
        if self.sent >= self.image.len() || self.unacked >= self.credit {
            return None;
        }
        let end = if self.image.len() - self.sent > OTA_CHUNK {
            self.sent + OTA_CHUNK
        } else {
            self.image.len()
        };
        let mut frame: Vec<u8> = Vec::new();
        frame.push(OTA_OP_DATA);
        frame.push(self.target.as_u8());
        push_le16(&mut frame, self.seq);
        let mut i = self.sent;
        let ghost head = frame@;
        while i < end
            invariant
                self.sent <= i <= end <= self.image@.len(),
                frame@ == head + self.image@.subrange(self.sent as int, i as int),
            decreases end - i,
        {
            frame.push(self.image[i]);
            assert(self.image@.subrange(self.sent as int, i as int + 1) =~= self.image@.subrange(
                self.sent as int,
                i as int,
            ).push(self.image@[i as int]));
            i = i + 1;
        }
        assert(frame@ =~= data_frame(self.target, self.seq, self.image@, self.sent as int, end as int));
        self.seq = self.seq.wrapping_add(1);
        self.sent = end;
        self.unacked = self.unacked + 1;
        Some(frame)
    }

    /// Whether the box owes a reply: the window is full, or the image is out.
    pub fn awaiting_ack(&self) -> (r: bool)
        ensures
            r == (self.unacked() > 0 && (self.unacked() >= self.credit() || self.sent()
                >= self.image().len())),
    {
        self.unacked > 0 && (self.unacked >= self.credit || self.sent >= self.image.len())
    }

    /// Take the box's acknowledgement: a refusal is an update error; a reply naming another next
    /// chunk than the plan's means the offsets diverged, and writing on would misplace bytes.
    pub fn on_ack(&mut self, status: UpdateStatus, arg: u32) -> (r: Result<UpdateProgress, Error>)
        requires
            old(self).wf(),
        ensures
            final(self).wf(),
            final(self).image() == old(self).image(),
            final(self).target() == old(self).target(),
            final(self).credit() == old(self).credit(),
            final(self).seq() == old(self).seq(),
            final(self).sent() == old(self).sent(),
            status.0 != UPD_OK && status.0 != UPD_ACK ==> r == Err::<UpdateProgress, Error>(
                Error::Update { op: OTA_OP_DATA, status, arg },
            ) && final(self).unacked() == old(self).unacked(),
            (status.0 == UPD_OK || status.0 == UPD_ACK) && arg != old(self).seq() ==> r == Err::<
                UpdateProgress,
                Error,
            >(Error::Update { op: OTA_OP_DATA, status: UpdateStatus(UPD_SEQ_GAP), arg })
                && final(self).unacked() == old(self).unacked(),
            (status.0 == UPD_OK || status.0 == UPD_ACK) && arg == old(self).seq() ==> r == Ok::<
                UpdateProgress,
                Error,
            >(
                UpdateProgress {
                    target: old(self).target(),
                    sent: old(self).sent() as usize,
                    total: old(self).image().len() as usize,
                },
            ) && final(self).unacked() == 0,
    {
        if status.0 != UPD_OK && status.0 != UPD_ACK {
            return Err(Error::Update { op: OTA_OP_DATA, status, arg });
        }
        if arg != self.seq as u32 {
            return Err(Error::Update { op: OTA_OP_DATA, status: UpdateStatus(UPD_SEQ_GAP), arg });
        }
        self.unacked = 0;
        Ok(UpdateProgress { target: self.target, sent: self.sent, total: self.image.len() })
    }
}

/// An empty image is refused before anything is sent.
pub fn check_image(image: &[u8]) -> (r: Result<(), Error>)
    ensures
        image@.len() == 0 ==> r == Err::<(), Error>(
            Error::Update { op: OTA_OP_BEGIN, status: UpdateStatus(UPD_TOO_BIG), arg: 0 },
        ),
        image@.len() != 0 ==> r is Ok,
{
    if image.len() == 0 {
        return Err(Error::Update { op: OTA_OP_BEGIN, status: UpdateStatus(UPD_TOO_BIG), arg: 0 });
    }
    Ok(())
}

/// A reply to `op` must carry `expected`; anything else is that op's refusal. On success the
/// reply's argument (the credit of a begin, the slot of an end) is returned.
pub fn expect_status(op: u8, expected: u8, status: UpdateStatus, arg: u32) -> (r: Result<u32, Error>)
    ensures
        status.0 == expected ==> r == Ok::<u32, Error>(arg),
        status.0 != expected ==> r == Err::<u32, Error>(Error::Update { op, status, arg }),
{
    if status.0 != expected {
        return Err(Error::Update { op, status, arg });
    }
    Ok(arg)
}

/// A begin must be answered ready; its argument is the credit window.
pub fn begin_outcome(status: UpdateStatus, arg: u32) -> (r: Result<u32, Error>)
    ensures
        status.0 == UPD_READY ==> r == Ok::<u32, Error>(arg),
        status.0 != UPD_READY ==> r == Err::<u32, Error>(Error::Update { op: OTA_OP_BEGIN, status, arg }),
{
    expect_status(OTA_OP_BEGIN, UPD_READY, status, arg)
}

/// An end must be answered staged; its argument is returned.
pub fn end_outcome(status: UpdateStatus, arg: u32) -> (r: Result<u32, Error>)
    ensures
        status.0 == UPD_STAGED ==> r == Ok::<u32, Error>(arg),
        status.0 != UPD_STAGED ==> r == Err::<u32, Error>(Error::Update { op: OTA_OP_END, status, arg }),
{
    expect_status(OTA_OP_END, UPD_STAGED, status, arg)
}

/// Whether a parked payload is a full reply to `op`.
pub open spec fn is_reply_for(p: Seq<u8>, op: u8) -> bool {
    p.len() >= UPD_RESP_LEN && p[0] == op
}

/// A reply's status and argument.
pub open spec fn reply_fields(p: Seq<u8>) -> (UpdateStatus, u32) {
    (UpdateStatus(p[2]), (p[3] as int + p[4] as int * 256 + p[5] as int * 65536 + p[6] as int
        * 16777216) as u32)
}

/// Read a full reply's status and argument.
pub fn parse_reply(p: &Vec<u8>) -> (r: (UpdateStatus, u32))
    requires
        p@.len() >= UPD_RESP_LEN,
    ensures
        r == reply_fields(p@),
{
    let arg: u32 = (p[3] as u32) + (p[4] as u32) * 256 + (p[5] as u32) * 65536 + (p[6] as u32)
        * 16777216;
    (UpdateStatus(p[2]), arg)
}

/// Whether `p` is a full reply to `op`.
pub fn reply_for(p: &Vec<u8>, op: u8) -> (r: bool)
    ensures
        r == is_reply_for(p@, op),
{
    p.len() >= UPD_RESP_LEN && p[0] == op
}

/// The views of parked payloads.
pub open spec fn views(v: Seq<Vec<u8>>) -> Seq<Seq<u8>> {
    v.map_values(|p: Vec<u8>| p@)
}

/// The first parked reply to `op`, if any.
pub open spec fn first_reply(s: Seq<Seq<u8>>, op: u8) -> Option<int>
    decreases s.len(),
{
    if s.len() == 0 {
        None
    } else {
        match first_reply(s.drop_last(), op) {
            Some(i) => Some(i),
            None => if is_reply_for(s.last(), op) {
                Some(s.len() - 1)
            } else {
                None
            },
        }
    }
}

proof fn lemma_first_reply_prefix(s: Seq<Seq<u8>>, op: u8, n: int)
    requires
        0 <= n <= s.len(),
        first_reply(s.take(n), op) is Some,
    ensures
        first_reply(s, op) == first_reply(s.take(n), op),
    decreases s.len() - n,
{
    if n < s.len() {
        assert(s.take(n + 1).drop_last() =~= s.take(n));
        lemma_first_reply_prefix(s, op, n + 1);
    } else {
        assert(s.take(n) =~= s);
    }
}

/// Take the first parked reply to `op`: another caller may have parked this op's reply while
/// waiting for its own.
pub fn take_held(held: &mut Vec<Vec<u8>>, op: u8) -> (r: Option<Vec<u8>>)
    ensures
        match first_reply(views(old(held)@), op) {
            Some(i) => r matches Some(p) && p@ == views(old(held)@)[i] && views(final(held)@) == views(
                old(held)@,
            ).remove(i),
            None => r is None && final(held)@ == old(held)@,
        },
{
    let ghost s = views(held@);
    let mut i: usize = 0;
    while i < held.len()
        invariant
            i <= held@.len(),
            held@ == old(held)@,
            s == views(held@),
            s.len() == held@.len(),
            first_reply(s.take(i as int), op) is None,
        decreases held@.len() - i,
    {
        proof {
            assert(s.take(i as int + 1).drop_last() =~= s.take(i as int));
            assert(s[i as int] == held@[i as int]@);
        }
        if reply_for(&held[i], op) {
            proof {
                assert(s.take(i as int + 1).last() == s[i as int]);
                assert(first_reply(s.take(i as int + 1), op) == Some(i as int));
                lemma_first_reply_prefix(s, op, i as int + 1);
            }
            let p = held.remove(i);
            assert(views(held@) =~= s.remove(i as int));
            return Some(p);
        }
        i = i + 1;
    }
    assert(s.take(s.len() as int) =~= s);
    None
}

/// Whether a parked payload is for another op than `op`.
pub open spec fn not_for(op: u8) -> spec_fn(Seq<u8>) -> bool {
    |p: Seq<u8>| !(p.len() > 0 && p[0] == op)
}

/// Drop every parked payload for `op`: anything queued for an op answers an earlier command, and
/// taking it would report a stale outcome.
pub fn drop_held(held: &mut Vec<Vec<u8>>, op: u8)
    ensures
        views(final(held)@) == crate::rules::select(views(old(held)@), not_for(op)),
{
    let ghost s = views(held@);
    let mut kept: Vec<Vec<u8>> = Vec::new();
    let mut i: usize = 0;
    while i < held.len()
        invariant
            i <= held@.len(),
            s == views(held@),
            s.len() == held@.len(),
            views(kept@) == crate::rules::select(s.take(i as int), not_for(op)),
        decreases held@.len() - i,
    {
        proof {
            assert(s.take(i as int + 1).drop_last() =~= s.take(i as int));
            assert(s.take(i as int + 1).last() == held@[i as int]@);
        }
        let first_is_op = held[i].len() > 0 && held[i][0] == op;
        if !first_is_op {
            let c = crate::bytes::copy_bytes(&held[i]);
            let ghost before = kept@;
            kept.push(c);
            assert(views(kept@) =~= views(before).push(c@));
        }
        i = i + 1;
    }
    assert(s.take(s.len() as int) =~= s);
    *held = kept;
}

/// How long, in milliseconds, a freshly activated image has to leave probation on both chips.
pub const CONFIRM_TIMEOUT_MS: u64 = 55_000;

/// How long, in milliseconds, to wait between firmware polls while waiting for the confirmation.
pub const CONFIRM_POLL_MS: u64 = 500;

/// What the wait for a confirmed image does after a firmware poll.
#[derive(Debug)]
pub enum ConfirmStep {
    /// Neither chip is on probation any more.
    Confirmed,
    /// Sleep [`CONFIRM_POLL_MS`] and poll again.
    Wait,
    /// The wait fails with this error.
    Fail(Error),
}

/// The step after a firmware poll came back with `poll` (whether some chip is still on probation,
/// or the query's error) at time `now`, with the wait ending at `deadline`. A timeout is the box
/// rebooting into the new image and is waited out until the deadline; any other error ends the
/// wait; a chip still on probation at the deadline is an update refused for probation.
pub fn confirm_step(poll: Result<bool, Error>, now: u64, deadline: u64) -> (s: ConfirmStep)
    ensures
        poll matches Ok(pending) ==> (!pending ==> s is Confirmed) && (pending && now >= deadline
            ==> s == ConfirmStep::Fail(
            Error::Update { op: OTA_OP_BEGIN, status: UpdateStatus(UPD_ON_PROBATION), arg: 0 },
        )) && (pending && now < deadline ==> s is Wait),
        poll matches Err(e) ==> ((e is QueryTimeout && now < deadline) ==> s is Wait) && (!(
        e is QueryTimeout && now < deadline) ==> s == ConfirmStep::Fail(e)),
{
    match poll {
        Ok(pending) => {
            if !pending {
                ConfirmStep::Confirmed
            } else if now >= deadline {
                ConfirmStep::Fail(
                    Error::Update { op: OTA_OP_BEGIN, status: UpdateStatus(UPD_ON_PROBATION), arg: 0 },
                )
            } else {
                ConfirmStep::Wait
            }
        },
        Err(e) => {
            if matches!(e, Error::QueryTimeout) && now < deadline {
                ConfirmStep::Wait
            } else {
                ConfirmStep::Fail(e)
            }
        },
    }
}


/// Where a staging session stands: BEGIN to send, its reply awaited, the data replies held from
/// before BEGIN's reply to drop, the data phase, END's reply awaited, finished.
#[derive(Clone, Copy, Debug, PartialEq, Eq, Structural)]
pub enum StagePhase {
    Begin,
    AwaitBegin,
    DropHeld,
    Data,
    AwaitEnd,
    Finished,
}

/// What a staging session does next.
#[derive(Clone, Copy, Debug, PartialEq, Eq, Structural)]
pub enum StageAction {
    /// Send BEGIN with [`begin_body`] of the image.
    SendBegin,
    /// Wait for the reply to the op just sent.
    AwaitReply,
    /// Drop data replies parked before BEGIN's reply (see [`drop_held`]).
    DropHeldData,
    /// Run the [`ChunkPlan`] on: send its frames and take its acknowledgements.
    SendData,
    /// The image is out and acknowledged: send END.
    SendEnd,
    /// Nothing more to do.
    Finished,
}

/// One step of a staging session in `phase`, with the data plan `data_done` or not: each send moves
/// on to awaiting its reply, the held data replies are dropped once BEGIN was answered and before
/// any chunk goes, and END follows only a finished plan.
pub open spec fn stage_step_spec(phase: StagePhase, data_done: bool) -> (StagePhase, StageAction) {
    match phase {
        StagePhase::Begin => (StagePhase::AwaitBegin, StageAction::SendBegin),
        StagePhase::AwaitBegin => (StagePhase::AwaitBegin, StageAction::AwaitReply),
        StagePhase::DropHeld => (StagePhase::Data, StageAction::DropHeldData),
        StagePhase::Data => if data_done {
            (StagePhase::AwaitEnd, StageAction::SendEnd)
        } else {
            (StagePhase::Data, StageAction::SendData)
        },
        StagePhase::AwaitEnd => (StagePhase::AwaitEnd, StageAction::AwaitReply),
        StagePhase::Finished => (StagePhase::Finished, StageAction::Finished),
    }
}

/// The order a firmware image is staged in.
#[derive(Debug)]
pub struct Staging {
    pub phase: StagePhase,
}

impl Staging {
    /// A session for an image of `len` bytes: an empty image is refused before anything is sent.
    pub fn start(len: usize) -> (r: Result<Staging, Error>)
        ensures
            len == 0 ==> r == Err::<Staging, Error>(
                Error::Update { op: OTA_OP_BEGIN, status: UpdateStatus(UPD_TOO_BIG), arg: 0 },
            ),
            len != 0 ==> (r matches Ok(s) && s.phase == StagePhase::Begin),
    {
        if len == 0 {
            return Err(Error::Update { op: OTA_OP_BEGIN, status: UpdateStatus(UPD_TOO_BIG), arg: 0 });
        }
        Ok(Staging { phase: StagePhase::Begin })
    }

    /// The next action; see [`stage_step_spec`].
    pub fn step(&mut self, data_done: bool) -> (a: StageAction)
        ensures
            (final(self).phase, a) == stage_step_spec(old(self).phase, data_done),
    {
        match self.phase {
            StagePhase::Begin => {
                self.phase = StagePhase::AwaitBegin;
                StageAction::SendBegin
            },
            StagePhase::AwaitBegin => StageAction::AwaitReply,
            StagePhase::DropHeld => {
                self.phase = StagePhase::Data;
                StageAction::DropHeldData
            },
            StagePhase::Data => {
                if data_done {
                    self.phase = StagePhase::AwaitEnd;
                    StageAction::SendEnd
                } else {
                    StageAction::SendData
                }
            },
            StagePhase::AwaitEnd => StageAction::AwaitReply,
            StagePhase::Finished => StageAction::Finished,
        }
    }

    /// BEGIN answered: ready goes on to drop the held data replies, with the credit window the box
    /// named; anything else ends the session with BEGIN's refusal.
    pub fn on_begin_reply(&mut self, status: UpdateStatus, arg: u32) -> (r: Result<u32, Error>)
        requires
            old(self).phase == StagePhase::AwaitBegin,
        ensures
            status.0 == UPD_READY ==> r == Ok::<u32, Error>(arg) && final(self).phase == StagePhase::DropHeld,
            status.0 != UPD_READY ==> r == Err::<u32, Error>(Error::Update { op: OTA_OP_BEGIN, status, arg })
                && final(self).phase == StagePhase::Finished,
    {
        let r = begin_outcome(status, arg);
        self.phase = if r.is_ok() { StagePhase::DropHeld } else { StagePhase::Finished };
        r
    }

    /// A data step failed: the session ends with that error.
    pub fn on_data_error(&mut self)
        ensures
            final(self).phase == StagePhase::Finished,
    {
        self.phase = StagePhase::Finished;
    }

    /// END answered: staged returns its argument, anything else is END's refusal; either way the
    /// session is finished.
    pub fn on_end_reply(&mut self, status: UpdateStatus, arg: u32) -> (r: Result<u32, Error>)
        requires
            old(self).phase == StagePhase::AwaitEnd,
        ensures
            final(self).phase == StagePhase::Finished,
            status.0 == UPD_STAGED ==> r == Ok::<u32, Error>(arg),
            status.0 != UPD_STAGED ==> r == Err::<u32, Error>(Error::Update { op: OTA_OP_END, status, arg }),
    {
        self.phase = StagePhase::Finished;
        end_outcome(status, arg)
    }
}

/// The staging order: BEGIN goes first and waits for its reply; the held data replies are dropped
/// only in the phase BEGIN's ready reply opens, and always before a chunk goes; chunks go only in
/// the data phase while the plan runs; END goes only from the data phase once the plan is done.
pub proof fn lemma_staging_order()
    ensures
        stage_step_spec(StagePhase::Begin, false) == (StagePhase::AwaitBegin, StageAction::SendBegin),
        stage_step_spec(StagePhase::Begin, true) == (StagePhase::AwaitBegin, StageAction::SendBegin),
        forall|d: bool| #[trigger] stage_step_spec(StagePhase::AwaitBegin, d).0 == StagePhase::AwaitBegin,
        forall|d: bool| #[trigger] stage_step_spec(StagePhase::DropHeld, d) == (StagePhase::Data, StageAction::DropHeldData),
        stage_step_spec(StagePhase::Data, false) == (StagePhase::Data, StageAction::SendData),
        stage_step_spec(StagePhase::Data, true) == (StagePhase::AwaitEnd, StageAction::SendEnd),
        forall|p: StagePhase, d: bool| #[trigger] stage_step_spec(p, d).1 == StageAction::SendEnd
            ==> p == StagePhase::Data && d,
        forall|p: StagePhase, d: bool| #[trigger] stage_step_spec(p, d).1 == StageAction::SendData
            ==> p == StagePhase::Data && !d,
        forall|p: StagePhase, d: bool| #[trigger] stage_step_spec(p, d).1 == StageAction::DropHeldData
            ==> p == StagePhase::DropHeld,
{
}

} // verus!
