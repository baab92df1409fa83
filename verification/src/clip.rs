//! Buffered-clip playback: per-frame input preloaded into a ring on the box, which drains one entry
//! per native frame on its own clock. This module holds the clip's entries, their wire encoding,
//! and the cut of an encoded clip into append frames that never split an entry.

use crate::catch::CatchClass;
use crate::error::{ClipItem, Error};
use crate::opcode::{
    CLIP_EDGES_MAX, CLIP_ENTRY_MAX, CLIP_OP_PAUSE, CLIP_OP_RESTART, CLIP_OP_RESUME, CLIP_OP_START,
    CLIP_OP_STOP, CLIP_OP_TOGGLE, CLIP_RAW_MAX, CLIP_TAG_GAP, LOCK_DIR_NEG, LOCK_DIR_POS,
};
use crate::raw::{le16, push_le16, raw_direction_error, setup_bytes, setup_is_in, validate_raw_direction, Setup};
use crate::types::{action_byte, class_byte, direction_byte, Action, Blanket, Direction, Usage};
use vstd::prelude::*;

verus! {

/// One raw report a clip frame emits.
#[derive(Clone, Debug)]
pub struct ClipRaw {
    /// The endpoint number (0 to 15).
    pub ep: u8,
    /// The flow: IN or OUT.
    pub direction: Direction,
    /// The report.
    pub bytes: Vec<u8>,
}

/// One control transfer a clip frame runs.
#[derive(Clone, Debug)]
pub struct ClipTransfer {
    /// The control endpoint.
    pub ep: u8,
    /// The setup packet.
    pub setup: Setup,
    /// The OUT data stage: `wLength` bytes for an OUT request, none for an IN one.
    pub out: Vec<u8>,
}

/// One frame of clip content: motion deltas, usage edges, raw reports and control transfers.
#[derive(Clone, Debug)]
pub struct ClipFrame {
    pub dx: i16,
    pub dy: i16,
    pub wheel: i16,
    pub pan: i16,
    /// Usage edges, held until changed.
    pub edges: Vec<(Usage, Action)>,
    pub raw: Vec<ClipRaw>,
    pub transfers: Vec<ClipTransfer>,
}

/// One clip entry: a frame, or a gap that emits nothing for `n` frames.
#[derive(Clone, Debug)]
pub enum ClipEntry {
    Gap(u16),
    Frame(ClipFrame),
}

/// A clip under construction.
#[derive(Clone, Debug)]
pub struct ClipBuilder {
    /// The entries, in playback order.
    pub entries: Vec<ClipEntry>,
}

/// Whether a frame carries motion in X or Y.
pub open spec fn frame_moves(f: ClipFrame) -> bool {
    f.dx != 0 || f.dy != 0
}

/// Whether a frame carries nothing at all: it is sent as a zero XY tick, since an empty content
/// tick would collide with the gap tag.
pub open spec fn frame_empty(f: ClipFrame) -> bool {
    !frame_moves(f) && f.wheel == 0 && f.pan == 0 && f.edges@.len() == 0 && f.raw@.len() == 0
        && f.transfers@.len() == 0
}

/// Whether a frame's encoding carries the XY field.
pub open spec fn has_xy(f: ClipFrame) -> bool {
    frame_moves(f) || frame_empty(f)
}

/// The flags byte: one bit per field present, XY 0x01, wheel 0x02, pan 0x04, edges 0x08, raw 0x10,
/// transfers 0x20.
pub open spec fn frame_flags(f: ClipFrame) -> int {
    (if has_xy(f) { 1int } else { 0 }) + (if f.wheel != 0 { 2int } else { 0 }) + (if f.pan != 0 {
        4int
    } else {
        0
    }) + (if f.edges@.len() > 0 { 8int } else { 0 }) + (if f.raw@.len() > 0 { 16int } else { 0 })
        + (if f.transfers@.len() > 0 { 32int } else { 0 })
}

/// One edge: class, id, action.
pub open spec fn edge_bytes(e: (Usage, Action)) -> Seq<u8> {
    seq![class_byte(e.0.class)] + le16(e.0.id) + seq![action_byte(e.1)]
}

/// One raw report: endpoint, flow, length, bytes.
pub open spec fn raw_item_bytes(r: ClipRaw) -> Seq<u8> {
    seq![r.ep % 16, direction_byte(r.direction)] + le16(r.bytes@.len() as u16) + r.bytes@
}

/// One transfer: endpoint, setup packet, OUT data.
pub open spec fn xfer_item_bytes(t: ClipTransfer) -> Seq<u8> {
    seq![t.ep] + setup_bytes(t.setup) + t.out@
}

/// A counted list: the count byte, then the items.
pub open spec fn counted(n: nat, items: Seq<u8>) -> Seq<u8> {
    seq![n as u8] + items
}

/// A frame's wire encoding: the flags byte, then each field present, in the order XY, wheel, pan,
/// edges, raw, transfers (which is not the flags' bit order for every field).
pub open spec fn frame_bytes(f: ClipFrame) -> Seq<u8> {
    seq![frame_flags(f) as u8] + (if has_xy(f) {
        le16(f.dx as u16) + le16(f.dy as u16)
    } else {
        Seq::empty()
    }) + (if f.wheel != 0 {
        le16(f.wheel as u16)
    } else {
        Seq::empty()
    }) + (if f.pan != 0 {
        le16(f.pan as u16)
    } else {
        Seq::empty()
    }) + (if f.edges@.len() > 0 {
        counted(f.edges@.len(), f.edges@.map_values(|e: (Usage, Action)| edge_bytes(e)).flatten())
    } else {
        Seq::empty()
    }) + (if f.raw@.len() > 0 {
        counted(f.raw@.len(), f.raw@.map_values(|r: ClipRaw| raw_item_bytes(r)).flatten())
    } else {
        Seq::empty()
    }) + (if f.transfers@.len() > 0 {
        counted(
            f.transfers@.len(),
            f.transfers@.map_values(|t: ClipTransfer| xfer_item_bytes(t)).flatten(),
        )
    } else {
        Seq::empty()
    })
}

/// The data bytes a transfer must carry: `wLength` for an OUT request, none for an IN one.
pub open spec fn xfer_want(t: ClipTransfer) -> nat {
    if setup_is_in(t.setup) {
        0
    } else {
        t.setup.length as nat
    }
}

/// The first raw report whose direction is refused, if any.
pub open spec fn first_bad_raw(s: Seq<ClipRaw>) -> Option<int>
    decreases s.len(),
{
    if s.len() == 0 {
        None
    } else {
        match first_bad_raw(s.drop_last()) {
            Some(i) => Some(i),
            None => if raw_direction_error(s.last().direction) is Some {
                Some(s.len() - 1)
            } else {
                None
            },
        }
    }
}

/// The first transfer whose data does not match its setup packet, if any.
pub open spec fn first_bad_xfer(s: Seq<ClipTransfer>) -> Option<int>
    decreases s.len(),
{
    if s.len() == 0 {
        None
    } else {
        match first_bad_xfer(s.drop_last()) {
            Some(i) => Some(i),
            None => if s.last().out@.len() != xfer_want(s.last()) {
                Some(s.len() - 1)
            } else {
                None
            },
        }
    }
}

/// What a frame is refused for, in the order the checks run: too many edges, too many raw
/// reports, a raw direction that is not one flow, a transfer whose data does not match its setup,
/// or an encoding past one entry.
pub open spec fn frame_error(f: ClipFrame) -> Option<Error> {
    if f.edges@.len() > CLIP_EDGES_MAX {
        Some(Error::ClipFrameCount { what: ClipItem::Edges, count: f.edges@.len() as usize, limit: CLIP_EDGES_MAX })
    } else if f.raw@.len() > CLIP_RAW_MAX {
        Some(Error::ClipFrameCount { what: ClipItem::RawReports, count: f.raw@.len() as usize, limit: CLIP_RAW_MAX })
    } else if let Some(i) = first_bad_raw(f.raw@) {
        raw_direction_error(f.raw@[i].direction)
    } else if let Some(i) = first_bad_xfer(f.transfers@) {
        Some(Error::ClipTransferData { want: xfer_want(f.transfers@[i]) as usize, got: f.transfers@[i].out@.len() as usize })
    } else if frame_bytes(f).len() > CLIP_ENTRY_MAX {
        Some(Error::ClipFrameTooLong { len: sat(frame_bytes(f).len() as int) as usize })
    } else {
        None
    }
}

/// The larger-than-representable cap of a length.
pub open spec fn sat(n: int) -> int {
    if n <= usize::MAX {
        n
    } else {
        usize::MAX as int
    }
}

/// The edges' encoding.
pub open spec fn edges_bytes(s: Seq<(Usage, Action)>) -> Seq<u8> {
    s.map_values(|e: (Usage, Action)| edge_bytes(e)).flatten()
}

/// The raw reports' encoding.
pub open spec fn raws_bytes(s: Seq<ClipRaw>) -> Seq<u8> {
    s.map_values(|r: ClipRaw| raw_item_bytes(r)).flatten()
}

/// The transfers' encoding.
pub open spec fn xfers_bytes(s: Seq<ClipTransfer>) -> Seq<u8> {
    s.map_values(|t: ClipTransfer| xfer_item_bytes(t)).flatten()
}

proof fn lemma_edges_push(s: Seq<(Usage, Action)>, e: (Usage, Action))
    ensures
        edges_bytes(s.push(e)) == edges_bytes(s) + edge_bytes(e),
{
    let f = |e: (Usage, Action)| edge_bytes(e);
    assert(s.push(e).map_values(f) =~= s.map_values(f).push(f(e)));
    s.map_values(f).lemma_flatten_push(f(e));
}

proof fn lemma_raws_push(s: Seq<ClipRaw>, r: ClipRaw)
    ensures
        raws_bytes(s.push(r)) == raws_bytes(s) + raw_item_bytes(r),
{
    let f = |r: ClipRaw| raw_item_bytes(r);
    assert(s.push(r).map_values(f) =~= s.map_values(f).push(f(r)));
    s.map_values(f).lemma_flatten_push(f(r));
}

proof fn lemma_xfers_push(s: Seq<ClipTransfer>, t: ClipTransfer)
    ensures
        xfers_bytes(s.push(t)) == xfers_bytes(s) + xfer_item_bytes(t),
{
    let f = |t: ClipTransfer| xfer_item_bytes(t);
    assert(s.push(t).map_values(f) =~= s.map_values(f).push(f(t)));
    s.map_values(f).lemma_flatten_push(f(t));
}

/// The counted-list length of `n` items holding `body` bytes: nothing for no item.
pub open spec fn part_len(n: nat, body: int) -> int {
    if n > 0 {
        1 + body
    } else {
        0
    }
}

fn edges_len(s: &Vec<(Usage, Action)>) -> (n: usize)
    ensures
        n == sat(part_len(s@.len(), edges_bytes(s@).len() as int)),
{
    if s.len() == 0 {
        return 0;
    }
    let mut n: usize = 1;
    let mut i: usize = 0;
    while i < s.len()
        invariant
            i <= s@.len(),
            s@.len() > 0,
            n == sat(1 + edges_bytes(s@.take(i as int)).len() as int),
        decreases s@.len() - i,
    {
        proof {
            assert(s@.take(i as int + 1) =~= s@.take(i as int).push(s@[i as int]));
            lemma_edges_push(s@.take(i as int), s@[i as int]);
        }
        n = n.saturating_add(4);
        i = i + 1;
    }
    assert(s@.take(s@.len() as int) =~= s@);
    n
}

fn raws_len(s: &Vec<ClipRaw>) -> (n: usize)
    ensures
        n == sat(part_len(s@.len(), raws_bytes(s@).len() as int)),
{
    if s.len() == 0 {
        return 0;
    }
    let mut n: usize = 1;
    let mut i: usize = 0;
    while i < s.len()
        invariant
            i <= s@.len(),
            s@.len() > 0,
            n == sat(1 + raws_bytes(s@.take(i as int)).len() as int),
        decreases s@.len() - i,
    {
        proof {
            assert(s@.take(i as int + 1) =~= s@.take(i as int).push(s@[i as int]));
            lemma_raws_push(s@.take(i as int), s@[i as int]);
        }
        n = n.saturating_add(4).saturating_add(s[i].bytes.len());
        i = i + 1;
    }
    assert(s@.take(s@.len() as int) =~= s@);
    n
}

fn xfers_len(s: &Vec<ClipTransfer>) -> (n: usize)
    ensures
        n == sat(part_len(s@.len(), xfers_bytes(s@).len() as int)),
{
    if s.len() == 0 {
        return 0;
    }
    let mut n: usize = 1;
    let mut i: usize = 0;
    while i < s.len()
        invariant
            i <= s@.len(),
            s@.len() > 0,
            n == sat(1 + xfers_bytes(s@.take(i as int)).len() as int),
        decreases s@.len() - i,
    {
        proof {
            assert(s@.take(i as int + 1) =~= s@.take(i as int).push(s@[i as int]));
            lemma_xfers_push(s@.take(i as int), s@[i as int]);
        }
        n = n.saturating_add(9).saturating_add(s[i].out.len());
        i = i + 1;
    }
    assert(s@.take(s@.len() as int) =~= s@);
    n
}

impl ClipFrame {
    /// The length of this frame's encoding, saturating at the largest `usize`.
    #[verifier::spinoff_prover]
    #[verifier::rlimit(40)]
    pub fn byte_len(&self) -> (n: usize)
        ensures
            n == sat(frame_bytes(*self).len() as int),
    {
        let mut h: usize = 1;
        let moves = self.dx != 0 || self.dy != 0;
        let empty = !moves && self.wheel == 0 && self.pan == 0 && self.edges.len() == 0
            && self.raw.len() == 0 && self.transfers.len() == 0;
        if moves || empty {
            h = h + 4;
        }
        if self.wheel != 0 {
            h = h + 2;
        }
        if self.pan != 0 {
            h = h + 2;
        }
        let e = edges_len(&self.edges);
        let r = raws_len(&self.raw);
        let x = xfers_len(&self.transfers);
        proof {
            lemma_frame_parts(*self);
            assert(head_bytes(*self).len() == h);
            assert(edges_part(*self).len() == part_len(self.edges@.len(), edges_bytes(self.edges@).len() as int));
            assert(raws_part(*self).len() == part_len(self.raw@.len(), raws_bytes(self.raw@).len() as int));
            assert(xfers_part(*self).len() == part_len(self.transfers@.len(), xfers_bytes(self.transfers@).len() as int));
        }
        h.saturating_add(e).saturating_add(r).saturating_add(x)
    }
}

/// Append an `i16`, low byte first.
fn push_i16(out: &mut Vec<u8>, v: i16)
    ensures
        final(out)@ == old(out)@ + le16(v as u16),
{
    push_le16(out, v as u16);
}

/// The first refused raw report, if any.
fn find_bad_raw(s: &Vec<ClipRaw>) -> (r: Option<usize>)
    ensures
        match r {
            Some(i) => i < s@.len() && first_bad_raw(s@) == Some(i as int),
            None => first_bad_raw(s@) is None,
        },
{
    let mut i: usize = 0;
    while i < s.len()
        invariant
            i <= s@.len(),
            first_bad_raw(s@.take(i as int)) is None,
        decreases s@.len() - i,
    {
        assert(s@.take(i as int + 1).drop_last() =~= s@.take(i as int));
        if validate_raw_direction(s[i].direction).is_err() {
            proof {
                lemma_first_bad_raw_prefix(s@, i as int + 1);
            }
            return Some(i);
        }
        i = i + 1;
    }
    assert(s@.take(s@.len() as int) =~= s@);
    None
}

proof fn lemma_first_bad_raw_prefix(s: Seq<ClipRaw>, n: int)
    requires
        0 <= n <= s.len(),
        first_bad_raw(s.take(n)) is Some,
    ensures
        first_bad_raw(s) == first_bad_raw(s.take(n)),
    decreases s.len() - n,
{
    if n < s.len() {
        assert(s.take(n + 1).drop_last() =~= s.take(n));
        lemma_first_bad_raw_prefix(s, n + 1);
    } else {
        assert(s.take(n) =~= s);
    }
}

/// The first transfer whose data does not match its setup packet, if any.
fn find_bad_xfer(s: &Vec<ClipTransfer>) -> (r: Option<usize>)
    ensures
        match r {
            Some(i) => i < s@.len() && first_bad_xfer(s@) == Some(i as int),
            None => first_bad_xfer(s@) is None,
        },
{
    let mut i: usize = 0;
    while i < s.len()
        invariant
            i <= s@.len(),
            first_bad_xfer(s@.take(i as int)) is None,
        decreases s@.len() - i,
    {
        assert(s@.take(i as int + 1).drop_last() =~= s@.take(i as int));
        let want: usize = if s[i].setup.is_in() { 0 } else { s[i].setup.length as usize };
        if s[i].out.len() != want {
            proof {
                lemma_first_bad_xfer_prefix(s@, i as int + 1);
            }
            return Some(i);
        }
        i = i + 1;
    }
    assert(s@.take(s@.len() as int) =~= s@);
    None
}

proof fn lemma_first_bad_xfer_prefix(s: Seq<ClipTransfer>, n: int)
    requires
        0 <= n <= s.len(),
        first_bad_xfer(s.take(n)) is Some,
    ensures
        first_bad_xfer(s) == first_bad_xfer(s.take(n)),
    decreases s.len() - n,
{
    if n < s.len() {
        assert(s.take(n + 1).drop_last() =~= s.take(n));
        lemma_first_bad_xfer_prefix(s, n + 1);
    } else {
        assert(s.take(n) =~= s);
    }
}

/// The head of a frame's encoding: flags and the motion fields.
pub open spec fn head_bytes(f: ClipFrame) -> Seq<u8> {
    seq![frame_flags(f) as u8] + (if has_xy(f) {
        le16(f.dx as u16) + le16(f.dy as u16)
    } else {
        Seq::empty()
    }) + (if f.wheel != 0 {
        le16(f.wheel as u16)
    } else {
        Seq::empty()
    }) + (if f.pan != 0 {
        le16(f.pan as u16)
    } else {
        Seq::empty()
    })
}

/// Check a frame against every refusal, in order.
pub fn check_frame(f: &ClipFrame) -> (r: Result<(), Error>)
    ensures
        r == (match frame_error(*f) {
            Some(e) => Err::<(), Error>(e),
            None => Ok(()),
        }),
{
    if f.edges.len() > CLIP_EDGES_MAX {
        return Err(Error::ClipFrameCount { what: ClipItem::Edges, count: f.edges.len(), limit: CLIP_EDGES_MAX });
    }
    if f.raw.len() > CLIP_RAW_MAX {
        return Err(Error::ClipFrameCount { what: ClipItem::RawReports, count: f.raw.len(), limit: CLIP_RAW_MAX });
    }
    if let Some(i) = find_bad_raw(&f.raw) {
        return match validate_raw_direction(f.raw[i].direction) {
            Err(e) => Err(e),
            Ok(()) => Ok(()),
        };
    }
    if let Some(i) = find_bad_xfer(&f.transfers) {
        let want: usize = if f.transfers[i].setup.is_in() { 0 } else { f.transfers[i].setup.length as usize };
        return Err(Error::ClipTransferData { want, got: f.transfers[i].out.len() });
    }
    let len = f.byte_len();
    if len > CLIP_ENTRY_MAX {
        return Err(Error::ClipFrameTooLong { len });
    }
    Ok(())
}

fn push_head(f: &ClipFrame, out: &mut Vec<u8>)
    ensures
        final(out)@ == old(out)@ + head_bytes(*f),
{
    let moves = f.dx != 0 || f.dy != 0;
    let empty = !moves && f.wheel == 0 && f.pan == 0 && f.edges.len() == 0 && f.raw.len() == 0
        && f.transfers.len() == 0;
    let xy = moves || empty;
    let mut flags: u8 = 0;
    if xy {
        flags = flags + 1;
    }
    if f.wheel != 0 {
        flags = flags + 2;
    }
    if f.pan != 0 {
        flags = flags + 4;
    }
    if f.edges.len() > 0 {
        flags = flags + 8;
    }
    if f.raw.len() > 0 {
        flags = flags + 16;
    }
    if f.transfers.len() > 0 {
        flags = flags + 32;
    }
    out.push(flags);
    if xy {
        push_i16(out, f.dx);
        push_i16(out, f.dy);
    }
    if f.wheel != 0 {
        push_i16(out, f.wheel);
    }
    if f.pan != 0 {
        push_i16(out, f.pan);
    }
    assert(out@ =~= old(out)@ + head_bytes(*f));
}

fn push_edges(s: &Vec<(Usage, Action)>, out: &mut Vec<u8>)
    ensures
        final(out)@ == old(out)@ + edges_bytes(s@),
{
    let mut i: usize = 0;
    while i < s.len()
        invariant
            i <= s@.len(),
            out@ == old(out)@ + edges_bytes(s@.take(i as int)),
        decreases s@.len() - i,
    {
        let (usage, action) = s[i];
        let (class, id) = usage.class_id();
        out.push(class);
        push_le16(out, id);
        out.push(action.as_u8());
        proof {
            assert(s@.take(i as int + 1) =~= s@.take(i as int).push(s@[i as int]));
            lemma_edges_push(s@.take(i as int), s@[i as int]);
        }
        assert(out@ =~= old(out)@ + edges_bytes(s@.take(i as int + 1)));
        i = i + 1;
    }
    assert(s@.take(s@.len() as int) =~= s@);
}

fn push_raws(s: &Vec<ClipRaw>, out: &mut Vec<u8>)
    ensures
        final(out)@ == old(out)@ + raws_bytes(s@),
{
    let mut i: usize = 0;
    while i < s.len()
        invariant
            i <= s@.len(),
            out@ == old(out)@ + raws_bytes(s@.take(i as int)),
        decreases s@.len() - i,
    {
        let item = &s[i];
        out.push(item.ep % 16);
        out.push(item.direction.as_u8());
        push_le16(out, item.bytes.len() as u16);
        crate::bytes::extend_bytes(out, item.bytes.as_slice());
        proof {
            assert(s@.take(i as int + 1) =~= s@.take(i as int).push(s@[i as int]));
            lemma_raws_push(s@.take(i as int), s@[i as int]);
        }
        assert(out@ =~= old(out)@ + raws_bytes(s@.take(i as int + 1)));
        i = i + 1;
    }
    assert(s@.take(s@.len() as int) =~= s@);
}

fn push_xfers(s: &Vec<ClipTransfer>, out: &mut Vec<u8>)
    ensures
        final(out)@ == old(out)@ + xfers_bytes(s@),
{
    let mut i: usize = 0;
    while i < s.len()
        invariant
            i <= s@.len(),
            out@ == old(out)@ + xfers_bytes(s@.take(i as int)),
        decreases s@.len() - i,
    {
        let item = &s[i];
        out.push(item.ep);
        item.setup.push_bytes(out);
        crate::bytes::extend_bytes(out, item.out.as_slice());
        proof {
            assert(s@.take(i as int + 1) =~= s@.take(i as int).push(s@[i as int]));
            lemma_xfers_push(s@.take(i as int), s@[i as int]);
        }
        assert(out@ =~= old(out)@ + xfers_bytes(s@.take(i as int + 1)));
        i = i + 1;
    }
    assert(s@.take(s@.len() as int) =~= s@);
}

/// The optional counted list of a frame's edges.
pub open spec fn edges_part(f: ClipFrame) -> Seq<u8> {
    if f.edges@.len() > 0 {
        counted(f.edges@.len(), edges_bytes(f.edges@))
    } else {
        Seq::empty()
    }
}

/// The optional counted list of a frame's raw reports.
pub open spec fn raws_part(f: ClipFrame) -> Seq<u8> {
    if f.raw@.len() > 0 {
        counted(f.raw@.len(), raws_bytes(f.raw@))
    } else {
        Seq::empty()
    }
}

/// The optional counted list of a frame's transfers.
pub open spec fn xfers_part(f: ClipFrame) -> Seq<u8> {
    if f.transfers@.len() > 0 {
        counted(f.transfers@.len(), xfers_bytes(f.transfers@))
    } else {
        Seq::empty()
    }
}

proof fn lemma_frame_parts(f: ClipFrame)
    ensures
        frame_bytes(f) == head_bytes(f) + edges_part(f) + raws_part(f) + xfers_part(f),
{
    assert(frame_bytes(f) =~= head_bytes(f) + edges_part(f) + raws_part(f) + xfers_part(f));
}

/// Encode the body of a frame the checks passed.
fn emit_frame(f: &ClipFrame, out: &mut Vec<u8>)
    ensures
        final(out)@ == old(out)@ + frame_bytes(*f),
{
    let ghost o0 = out@;
    push_head(f, out);
    let ghost o1 = out@;
    if f.edges.len() > 0 {
        out.push(f.edges.len() as u8);
        push_edges(&f.edges, out);
    }
    assert(out@ =~= o1 + edges_part(*f));
    let ghost o2 = out@;
    if f.raw.len() > 0 {
        out.push(f.raw.len() as u8);
        push_raws(&f.raw, out);
    }
    assert(out@ =~= o2 + raws_part(*f));
    let ghost o3 = out@;
    if f.transfers.len() > 0 {
        out.push(f.transfers.len() as u8);
        push_xfers(&f.transfers, out);
    }
    assert(out@ =~= o3 + xfers_part(*f));
    proof {
        lemma_frame_parts(*f);
        assert(out@ =~= o0 + frame_bytes(*f));
    }
}

/// Encode one frame onto `out`, or refuse it before writing anything.
pub fn encode_frame(f: &ClipFrame, out: &mut Vec<u8>) -> (r: Result<(), Error>)
    ensures
        match frame_error(*f) {
            Some(e) => r == Err::<(), Error>(e) && final(out)@ == old(out)@,
            None => r is Ok && final(out)@ == old(out)@ + frame_bytes(*f),
        },
{
    match check_frame(f) {
        Err(e) => Err(e),
        Ok(()) => {
            emit_frame(f, out);
            Ok(())
        },
    }
}

/// One entry's wire bytes: a gap is its tag and frame count; a frame its encoding.
pub open spec fn entry_bytes(e: ClipEntry) -> Seq<u8> {
    match e {
        ClipEntry::Gap(n) => seq![CLIP_TAG_GAP] + le16(n),
        ClipEntry::Frame(f) => frame_bytes(f),
    }
}

/// What an entry is refused for, if anything: a gap never is.
pub open spec fn entry_error(e: ClipEntry) -> Option<Error> {
    match e {
        ClipEntry::Gap(_) => None,
        ClipEntry::Frame(f) => frame_error(f),
    }
}

/// The first refusal among entries, if any.
pub open spec fn first_entry_error(s: Seq<ClipEntry>) -> Option<Error>
    decreases s.len(),
{
    if s.len() == 0 {
        None
    } else {
        match first_entry_error(s.drop_last()) {
            Some(e) => Some(e),
            None => entry_error(s.last()),
        }
    }
}

/// Cutting encoded entries into pieces: the finished pieces and the one being filled. An entry
/// that would take the piece being filled past `limit` starts a new piece, so an entry never spans
/// two pieces.
pub open spec fn chunk_state(es: Seq<Seq<u8>>, limit: nat) -> (Seq<Seq<u8>>, Seq<u8>)
    decreases es.len(),
{
    if es.len() == 0 {
        (Seq::empty(), Seq::empty())
    } else {
        let (done, cur) = chunk_state(es.drop_last(), limit);
        let e = es.last();
        if cur.len() > 0 && cur.len() + e.len() > limit {
            (done.push(cur), e)
        } else {
            (done, cur + e)
        }
    }
}

/// Encoded entries cut into pieces of at most `limit` bytes, each ending on an entry boundary.
pub open spec fn chunks_spec(es: Seq<Seq<u8>>, limit: nat) -> Seq<Seq<u8>> {
    let (done, cur) = chunk_state(es, limit);
    if cur.len() > 0 {
        done.push(cur)
    } else {
        done
    }
}

/// The entries' bytes.
pub open spec fn entries_bytes(s: Seq<ClipEntry>) -> Seq<Seq<u8>> {
    s.map_values(|e: ClipEntry| entry_bytes(e))
}

/// The pieces hold exactly the entries' bytes, in order, and none is empty; with every entry at
/// most `limit` long, no piece is longer than `limit`.
pub proof fn lemma_chunks_cover(es: Seq<Seq<u8>>, limit: nat)
    ensures
        chunks_spec(es, limit).flatten() == es.flatten(),
        forall|i: int| 0 <= i < chunks_spec(es, limit).len() ==> #[trigger] chunks_spec(es, limit)[i].len() > 0,
        (forall|j: int| 0 <= j < es.len() ==> #[trigger] es[j].len() <= limit) ==> forall|i: int|
            0 <= i < chunks_spec(es, limit).len() ==> #[trigger] chunks_spec(es, limit)[i].len() <= limit,
{
    lemma_chunk_state(es, limit);
    let (done, cur) = chunk_state(es, limit);
    if cur.len() > 0 {
        done.lemma_flatten_push(cur);
    } else {
        assert(done.flatten() + cur =~= done.flatten());
    }
}

proof fn lemma_chunk_state(es: Seq<Seq<u8>>, limit: nat)
    ensures
        chunk_state(es, limit).0.flatten() + chunk_state(es, limit).1 == es.flatten(),
        forall|i: int| 0 <= i < chunk_state(es, limit).0.len() ==> #[trigger] chunk_state(es, limit).0[i].len() > 0,
        (forall|j: int| 0 <= j < es.len() ==> #[trigger] es[j].len() <= limit) ==> (forall|i: int|
            0 <= i < chunk_state(es, limit).0.len() ==> #[trigger] chunk_state(es, limit).0[i].len()
                <= limit) && chunk_state(es, limit).1.len() <= limit,
    decreases es.len(),
{
    if es.len() == 0 {
        assert(Seq::<Seq<u8>>::empty().flatten() + Seq::<u8>::empty() =~= es.flatten());
    } else {
        let d = es.drop_last();
        let e = es.last();
        lemma_chunk_state(d, limit);
        let (done, cur) = chunk_state(d, limit);
        d.lemma_flatten_push(e);
        assert(es =~= d.push(e));
        if cur.len() > 0 && cur.len() + e.len() > limit {
            done.lemma_flatten_push(cur);
            assert(done.push(cur).flatten() + e =~= es.flatten());
        } else {
            assert(done.flatten() + (cur + e) =~= es.flatten());
        }
        if forall|j: int| 0 <= j < es.len() ==> #[trigger] es[j].len() <= limit {
            assert forall|j: int| 0 <= j < d.len() implies #[trigger] d[j].len() <= limit by {
                assert(d[j] == es[j]);
            }
            assert(e.len() <= limit) by {
                assert(e == es[es.len() - 1]);
            }
        }
    }
}

/// The entry's bytes onto `out`, or its refusal.
fn encode_entry(e: &ClipEntry, out: &mut Vec<u8>) -> (r: Result<(), Error>)
    ensures
        match entry_error(*e) {
            Some(err) => r == Err::<(), Error>(err) && final(out)@ == old(out)@,
            None => r is Ok && final(out)@ == old(out)@ + entry_bytes(*e),
        },
{
    match e {
        ClipEntry::Gap(n) => {
            out.push(CLIP_TAG_GAP);
            push_le16(out, *n);
            assert(out@ =~= old(out)@ + entry_bytes(*e));
            Ok(())
        },
        ClipEntry::Frame(f) => encode_frame(f, out),
    }
}

/// The builder's stream cut into pieces of at most `limit` bytes, each ending on an entry
/// boundary: an entry never spans two append frames. Every entry is checked before any piece is
/// returned, so a refusal sends nothing.
pub fn encode_chunks(clip: &ClipBuilder, limit: usize) -> (r: Result<Vec<Vec<u8>>, Error>)
    ensures
        match first_entry_error(clip.entries@) {
            Some(e) => r == Err::<Vec<Vec<u8>>, Error>(e),
            None => r matches Ok(v) && v@.map_values(|c: Vec<u8>| c@) == chunks_spec(
                entries_bytes(clip.entries@),
                limit as nat,
            ),
        },
{
    let ghost es = entries_bytes(clip.entries@);
    let mut out: Vec<Vec<u8>> = Vec::new();
    let mut cur: Vec<u8> = Vec::new();
    let mut i: usize = 0;
    while i < clip.entries.len()
        invariant
            i <= clip.entries@.len(),
            es == entries_bytes(clip.entries@),
            first_entry_error(clip.entries@.take(i as int)) is None,
            (out@.map_values(|c: Vec<u8>| c@), cur@) == chunk_state(es.take(i as int), limit as nat),
        decreases clip.entries@.len() - i,
    {
        let mut entry: Vec<u8> = Vec::new();
        let res = encode_entry(&clip.entries[i], &mut entry);
        proof {
            assert(clip.entries@.take(i as int + 1).drop_last() =~= clip.entries@.take(i as int));
            assert(es.take(i as int + 1).drop_last() =~= es.take(i as int));
            assert(es.take(i as int + 1).last() == entry_bytes(clip.entries@[i as int]));
        }
        match res {
            Err(e) => {
                proof {
                    lemma_first_entry_error_prefix(clip.entries@, i as int + 1);
                }
                return Err(e);
            },
            Ok(()) => {},
        }
        if cur.len() > 0 && (cur.len() > limit || entry.len() > limit - cur.len()) {
            let full = cur;
            let ghost before = out@;
            out.push(full);
            assert(out@.map_values(|c: Vec<u8>| c@) =~= before.map_values(|c: Vec<u8>| c@).push(full@));
            cur = entry;
        } else {
            crate::bytes::extend_bytes(&mut cur, entry.as_slice());
        }
        i = i + 1;
    }
    assert(clip.entries@.take(clip.entries@.len() as int) =~= clip.entries@);
    assert(es.take(es.len() as int) =~= es);
    if cur.len() > 0 {
        let ghost before = out@;
        out.push(cur);
        assert(out@.map_values(|c: Vec<u8>| c@) =~= before.map_values(|c: Vec<u8>| c@).push(cur@));
    }
    Ok(out)
}

proof fn lemma_first_entry_error_prefix(s: Seq<ClipEntry>, n: int)
    requires
        0 <= n <= s.len(),
        first_entry_error(s.take(n)) is Some,
    ensures
        first_entry_error(s) == first_entry_error(s.take(n)),
    decreases s.len() - n,
{
    if n < s.len() {
        assert(s.take(n + 1).drop_last() =~= s.take(n));
        lemma_first_entry_error_prefix(s, n + 1);
    } else {
        assert(s.take(n) =~= s);
    }
}

/// A frame with every field empty.
pub open spec fn blank_frame(f: ClipFrame) -> bool {
    f.dx == 0 && f.dy == 0 && f.wheel == 0 && f.pan == 0 && f.edges@.len() == 0 && f.raw@.len()
        == 0 && f.transfers@.len() == 0
}

impl ClipFrame {
    /// A frame with nothing in it.
    pub fn new() -> (f: ClipFrame)
        ensures
            blank_frame(f),
    {
        ClipFrame { dx: 0, dy: 0, wheel: 0, pan: 0, edges: Vec::new(), raw: Vec::new(), transfers: Vec::new() }
    }
}

impl ClipBuilder {
    /// An empty clip.
    pub fn new() -> (b: ClipBuilder)
        ensures
            b.entries@.len() == 0,
    {
        ClipBuilder { entries: Vec::new() }
    }

    /// One frame of `f`.
    pub fn frame(&mut self, f: ClipFrame)
        ensures
            final(self).entries@ == old(self).entries@.push(ClipEntry::Frame(f)),
    {
        self.entries.push(ClipEntry::Frame(f));
    }

    /// One frame moving by `(dx, dy)`.
    pub fn move_by(&mut self, dx: i16, dy: i16)
        ensures
            final(self).entries@.len() == old(self).entries@.len() + 1,
            final(self).entries@.drop_last() == old(self).entries@,
            final(self).entries@.last() matches ClipEntry::Frame(f) && f.dx == dx && f.dy == dy
                && f.wheel == 0 && f.pan == 0 && f.edges@.len() == 0 && f.raw@.len() == 0
                && f.transfers@.len() == 0,
    {
        let mut f = ClipFrame::new();
        f.dx = dx;
        f.dy = dy;
        self.entries.push(ClipEntry::Frame(f));
        assert(self.entries@.drop_last() =~= old(self).entries@);
    }

    /// One frame carrying one usage edge.
    pub fn edge(&mut self, usage: Usage, action: Action)
        ensures
            final(self).entries@.len() == old(self).entries@.len() + 1,
            final(self).entries@.drop_last() == old(self).entries@,
            final(self).entries@.last() matches ClipEntry::Frame(f) && f.dx == 0 && f.dy == 0
                && f.wheel == 0 && f.pan == 0 && f.edges@ == seq![(usage, action)] && f.raw@.len()
                == 0 && f.transfers@.len() == 0,
    {
        let mut f = ClipFrame::new();
        f.edges.push((usage, action));
        assert(f.edges@ =~= seq![(usage, action)]);
        self.entries.push(ClipEntry::Frame(f));
        assert(self.entries@.drop_last() =~= old(self).entries@);
    }

    /// One frame pressing `usage`.
    pub fn press(&mut self, usage: Usage)
        ensures
            final(self).entries@.len() == old(self).entries@.len() + 1,
            final(self).entries@.drop_last() == old(self).entries@,
            final(self).entries@.last() matches ClipEntry::Frame(f) && f.dx == 0 && f.dy == 0
                && f.wheel == 0 && f.pan == 0 && f.edges@ == seq![(usage, Action::Press)]
                && f.raw@.len() == 0 && f.transfers@.len() == 0,
    {
        self.edge(usage, Action::Press);
    }

    /// One frame releasing `usage`.
    pub fn release(&mut self, usage: Usage)
        ensures
            final(self).entries@.len() == old(self).entries@.len() + 1,
            final(self).entries@.drop_last() == old(self).entries@,
            final(self).entries@.last() matches ClipEntry::Frame(f) && f.dx == 0 && f.dy == 0
                && f.wheel == 0 && f.pan == 0 && f.edges@ == seq![(usage, Action::SoftRelease)]
                && f.raw@.len() == 0 && f.transfers@.len() == 0,
    {
        self.edge(usage, Action::SoftRelease);
    }

    /// Nothing for `n` frames.
    pub fn gap(&mut self, n: u16)
        ensures
            final(self).entries@ == old(self).entries@.push(ClipEntry::Gap(n)),
    {
        self.entries.push(ClipEntry::Gap(n));
    }
}

/// Which edge of a usage fires a trigger.
#[derive(Clone, Copy, Debug, PartialEq, Eq, Hash, Structural)]
pub enum Edge {
    Press,
    Release,
}

/// The wire byte of an [`Edge`]: the signed lock direction.
pub open spec fn edge_byte(e: Edge) -> u8 {
    match e {
        Edge::Press => LOCK_DIR_POS,
        Edge::Release => LOCK_DIR_NEG,
    }
}

impl Edge {
    /// The wire byte.
    pub fn as_u8(self) -> (b: u8)
        ensures
            b == edge_byte(self),
    {
        match self {
            Edge::Press => LOCK_DIR_POS,
            Edge::Release => LOCK_DIR_NEG,
        }
    }
}

/// What a trigger does to the clip engine.
#[derive(Clone, Copy, Debug, PartialEq, Eq, Hash, Structural)]
pub enum ClipAction {
    Start,
    Stop,
    Pause,
    Resume,
    Restart,
    Toggle,
}

/// The wire byte of a [`ClipAction`]: its engine verb.
pub open spec fn clip_action_byte(a: ClipAction) -> u8 {
    match a {
        ClipAction::Start => CLIP_OP_START,
        ClipAction::Stop => CLIP_OP_STOP,
        ClipAction::Pause => CLIP_OP_PAUSE,
        ClipAction::Resume => CLIP_OP_RESUME,
        ClipAction::Restart => CLIP_OP_RESTART,
        ClipAction::Toggle => CLIP_OP_TOGGLE,
    }
}

impl ClipAction {
    /// The wire byte.
    pub fn as_u8(self) -> (b: u8)
        ensures
            b == clip_action_byte(self),
    {
        match self {
            ClipAction::Start => CLIP_OP_START,
            ClipAction::Stop => CLIP_OP_STOP,
            ClipAction::Pause => CLIP_OP_PAUSE,
            ClipAction::Resume => CLIP_OP_RESUME,
            ClipAction::Restart => CLIP_OP_RESTART,
            ClipAction::Toggle => CLIP_OP_TOGGLE,
        }
    }
}

/// A binding on the box: an input edge fires a clip action with no host round trip.
#[derive(Clone, Copy, Debug, PartialEq, Eq, Hash, Structural)]
pub struct ClipTrigger {
    /// The usage watched.
    pub on: Usage,
    /// The edge that fires.
    pub edge: Edge,
    /// What it fires.
    pub action: ClipAction,
    /// Whether the firing edge is kept from the game PC.
    pub consume: bool,
}

impl ClipTrigger {
    /// A binding of `on`'s `edge` to `action`, passing the edge through.
    pub fn new(on: Usage, edge: Edge, action: ClipAction) -> (t: ClipTrigger)
        ensures
            t == (ClipTrigger { on, edge, action, consume: false }),
    {
        ClipTrigger { on, edge, action, consume: false }
    }
}

/// The `(class, id, edge)` key the box holds an input trigger under, packed so that the integer
/// order is the tuple order.
pub open spec fn clip_trigger_key(t: ClipTrigger) -> u64 {
    ((class_byte(t.on.class) as u64) * 0x1000000 + (t.on.id as u64) * 0x100 + (edge_byte(t.edge) as u64)) as u64
}

/// The key of an input trigger.
pub fn trigger_key(t: &ClipTrigger) -> (k: u64)
    ensures
        k == clip_trigger_key(*t),
{
    let (class, id) = t.on.class_id();
    (class as u64) * 0x1000000 + (id as u64) * 0x100 + (t.edge.as_u8() as u64)
}

/// A binding on the box: a packet whose head matches fires a clip action.
#[derive(Debug)]
pub struct ClipPacketTrigger {
    /// The traffic class watched.
    pub class: CatchClass,
    /// The endpoint or request watched.
    pub id: u16,
    /// The flow watched.
    pub direction: Direction,
    /// What it fires.
    pub action: ClipAction,
    /// Whether the matching packet is kept from its destination.
    pub consume: bool,
    /// The bytes compared against the packet head.
    pub match_bytes: Vec<u8>,
    /// Which bits of each match byte count.
    pub mask: Vec<u8>,
}

/// A packet trigger's fields as values.
pub type PacketTriggerSpec = (CatchClass, u16, Direction, ClipAction, bool, Seq<u8>, Seq<u8>);

/// A packet trigger's fields as values.
pub open spec fn packet_view(t: ClipPacketTrigger) -> PacketTriggerSpec {
    (t.class, t.id, t.direction, t.action, t.consume, t.match_bytes@, t.mask@)
}

/// The `(class, id, direction, match, mask)` key the box holds a packet trigger under.
pub type PacketKeySpec = (CatchClass, u16, Direction, Seq<u8>, Seq<u8>);

/// A packet trigger's key.
pub open spec fn packet_key_of(t: PacketTriggerSpec) -> PacketKeySpec {
    (t.0, t.1, t.2, t.5, t.6)
}

/// The key function of the packet-trigger table.
pub open spec fn packet_key_fn() -> spec_fn(PacketTriggerSpec) -> PacketKeySpec {
    |t: PacketTriggerSpec| packet_key_of(t)
}

impl Clone for ClipPacketTrigger {
    fn clone(&self) -> (r: ClipPacketTrigger)
        ensures
            packet_view(r) == packet_view(*self),
    {
        ClipPacketTrigger {
            class: self.class,
            id: self.id,
            direction: self.direction,
            action: self.action,
            consume: self.consume,
            match_bytes: crate::bytes::copy_bytes(&self.match_bytes),
            mask: crate::bytes::copy_bytes(&self.mask),
        }
    }
}

impl ClipPacketTrigger {
    /// Whether this trigger has `other`'s key.
    pub fn same_key(&self, other: &ClipPacketTrigger) -> (r: bool)
        ensures
            r == (packet_key_of(packet_view(*self)) == packet_key_of(packet_view(*other))),
    {
        self.class == other.class && self.id == other.id && self.direction == other.direction
            && crate::bytes::bytes_eq(&self.match_bytes, &other.match_bytes)
            && crate::bytes::bytes_eq(&self.mask, &other.mask)
    }
}

/// The clip engine's state.
#[derive(Clone, Copy, Debug, PartialEq, Eq, Hash, Structural)]
pub enum ClipState {
    Idle,
    Playing,
    Paused,
    Faulted,
}

/// The ring's depth and the engine's state, as the box reports them.
#[derive(Clone, Copy, Debug, PartialEq, Eq, Hash, Structural)]
pub struct ClipStatus {
    /// The engine's state.
    pub state: ClipState,
    /// Bytes in the ring.
    pub total: u32,
    /// Bytes free in the ring.
    pub free: u32,
}

/// Whether a reading shows a loaded clip: a ring with bytes in it, or an engine that is not idle
/// (a streaming clip that ran dry stays playing).
pub open spec fn ring_holds_spec(s: ClipStatus) -> bool {
    s.total != 0 || s.state != ClipState::Idle
}

/// Whether a reading shows a loaded clip.
pub fn ring_holds(status: &ClipStatus) -> (r: bool)
    ensures
        r == ring_holds_spec(*status),
{
    status.total != 0 || status.state != ClipState::Idle
}

/// The clip configuration the box reports: auto-lock scope, loop, retain, ride, and the triggers.
#[derive(Clone, Debug)]
pub struct ClipSettings {
    pub autolock: Vec<Blanket>,
    pub loop_: bool,
    pub retain: bool,
    pub ride: bool,
    pub triggers: Vec<ClipTrigger>,
    pub packet_triggers: Vec<ClipPacketTrigger>,
}

/// The bit of a blanket in an auto-lock scope.
pub open spec fn blanket_bit(b: Blanket) -> u8 {
    match b {
        Blanket::Aim => 0x01,
        Blanket::Wheel => 0x02,
        Blanket::Buttons => 0x04,
        Blanket::Keys => 0x08,
        Blanket::Media => 0x10,
    }
}

/// An auto-lock scope: the union of its blankets' bits.
pub open spec fn scope_spec(s: Seq<Blanket>) -> u8
    decreases s.len(),
{
    if s.len() == 0 {
        0
    } else {
        scope_spec(s.drop_last()) | blanket_bit(s.last())
    }
}

/// The auto-lock scope byte of a set of blankets.
pub fn blanket_scope(scope: &[Blanket]) -> (b: u8)
    ensures
        b == scope_spec(scope@),
{
    let mut acc: u8 = 0;
    let mut i: usize = 0;
    while i < scope.len()
        invariant
            i <= scope@.len(),
            acc == scope_spec(scope@.take(i as int)),
        decreases scope@.len() - i,
    {
        assert(scope@.take(i as int + 1).drop_last() =~= scope@.take(i as int));
        let bit: u8 = match scope[i] {
            Blanket::Aim => 0x01,
            Blanket::Wheel => 0x02,
            Blanket::Buttons => 0x04,
            Blanket::Keys => 0x08,
            Blanket::Media => 0x10,
        };
        acc = acc | bit;
        i = i + 1;
    }
    assert(scope@.take(scope@.len() as int) =~= scope@);
    acc
}

} // verus!
