//! The fake box's side of a firmware-update session, sequenced as the firmware does: a BEGIN that
//! names the image's size and digest, DATA chunks in sequence acknowledged once per window, and an
//! END that stages the image only when every byte came and its SHA-256 matches.

use crate::bytes::{bytes_eq, extend_bytes};
use crate::opcode::{
    OTA_CHUNK, OTA_CREDIT, UPD_ACK, UPD_BAD_DIGEST, UPD_BAD_STATE, UPD_BUSY, UPD_READY, UPD_SEQ_GAP,
    UPD_STAGED, UPD_TOO_BIG,
};
use crate::update::{sha256, sha256_digest};
use vstd::prelude::*;

verus! {

/// The size of the box's update slot.
pub const MOCK_SLOT_SIZE: u32 = 0xF_0000;

/// A little-endian `u16` from two bytes.
pub open spec fn le16_of(b0: u8, b1: u8) -> u16 {
    (b0 as int + b1 as int * 256) as u16
}

/// A little-endian `u32` from four bytes.
pub open spec fn le32_of(b0: u8, b1: u8, b2: u8, b3: u8) -> u32 {
    (b0 as int + b1 as int * 256 + b2 as int * 65536 + b3 as int * 16777216) as u32
}

/// An update session as values.
pub struct MockUpdateView {
    pub active: bool,
    /// The image size BEGIN declared.
    pub size: u32,
    /// Image bytes taken so far.
    pub got: u32,
    /// The sequence number the next chunk must carry.
    pub next_seq: u16,
    /// Chunks taken since the last acknowledgement.
    pub since_ack: u16,
    /// The digest BEGIN declared.
    pub sha: Seq<u8>,
    /// The image bytes taken so far.
    pub image: Seq<u8>,
    /// Whether the last session ended with a verified image staged.
    pub staged: bool,
}

/// The box's reply to BEGIN with `body` (`size` LE32, then the 32-byte digest): refused as bad
/// state when short, busy while a session runs, too big for an empty image or one past the slot;
/// else a fresh session, ready with a window of 16 chunks.
pub open spec fn update_begin_spec(u: MockUpdateView, body: Seq<u8>) -> (MockUpdateView, (u8, u32)) {
    if body.len() < 36 {
        (u, (UPD_BAD_STATE, 0))
    } else if u.active {
        (u, (UPD_BUSY, 0))
    } else {
        let size = le32_of(body[0], body[1], body[2], body[3]);
        if size == 0 || size > MOCK_SLOT_SIZE {
            (u, (UPD_TOO_BIG, MOCK_SLOT_SIZE))
        } else {
            (
                MockUpdateView {
                    active: true,
                    size,
                    got: 0,
                    next_seq: 0,
                    since_ack: 0,
                    sha: body.subrange(4, 36),
                    image: Seq::empty(),
                    staged: false,
                },
                (UPD_READY, OTA_CREDIT as u32),
            )
        }
    }
}

/// One more, wrapping past the top.
pub open spec fn next_u16(n: u16) -> u16 {
    if n == u16::MAX {
        0
    } else {
        (n + 1) as u16
    }
}

/// The box's answer to DATA with `body` (`seq` LE16, then the chunk), if it owes one: bad state
/// when short or with no session; the previous chunk again is re-acknowledged; any other sequence
/// gap, a chunk outside `1..=504` bytes, or one past the declared size ends the session. A chunk
/// taken is acknowledged when the window fills or the image is complete, and otherwise written
/// unacknowledged.
pub open spec fn update_data_spec(u: MockUpdateView, body: Seq<u8>) -> (MockUpdateView, Option<(u8, u32)>) {
    if body.len() < 3 {
        (u, Some((UPD_BAD_STATE, 1)))
    } else if !u.active {
        (u, Some((UPD_BAD_STATE, 0)))
    } else {
        let seq = le16_of(body[0], body[1]);
        let bytes = body.subrange(2, body.len() as int);
        if u.next_seq > 0 && seq == u.next_seq - 1 {
            (u, Some((UPD_ACK, u.next_seq as u32)))
        } else if seq != u.next_seq {
            (MockUpdateView { active: false, ..u }, Some((UPD_SEQ_GAP, u.next_seq as u32)))
        } else if bytes.len() == 0 || bytes.len() > OTA_CHUNK {
            (MockUpdateView { active: false, ..u }, Some((UPD_BAD_STATE, OTA_CHUNK as u32)))
        } else if u.got + bytes.len() > u.size {
            (MockUpdateView { active: false, ..u }, Some((UPD_TOO_BIG, u.size)))
        } else {
            let got = (u.got + bytes.len()) as u32;
            let next_seq = next_u16(u.next_seq);
            let taken = MockUpdateView { got, next_seq, image: u.image + bytes, ..u };
            if u.since_ack + 1 >= OTA_CREDIT || got == u.size {
                (MockUpdateView { since_ack: 0, ..taken }, Some((UPD_ACK, next_seq as u32)))
            } else {
                (MockUpdateView { since_ack: (u.since_ack + 1) as u16, ..taken }, None)
            }
        }
    }
}

/// The box's reply to END: bad state with no session, or with bytes still owed (naming how many);
/// else the session closes, and the image is staged just when its SHA-256 is the digest BEGIN
/// declared, or refused as a bad digest.
pub open spec fn update_end_spec(u: MockUpdateView) -> (MockUpdateView, (u8, u32)) {
    if !u.active {
        (u, (UPD_BAD_STATE, 0))
    } else if u.got != u.size {
        (MockUpdateView { active: false, ..u }, (UPD_BAD_STATE, (u.size - u.got) as u32))
    } else if sha256_digest(u.image) != u.sha {
        (MockUpdateView { active: false, ..u }, (UPD_BAD_DIGEST, 0))
    } else {
        (MockUpdateView { active: false, staged: true, ..u }, (UPD_STAGED, u.size))
    }
}

/// The fake box's update session.
#[derive(Debug)]
pub struct MockUpdate {
    active: bool,
    size: u32,
    got: u32,
    next_seq: u16,
    since_ack: u16,
    sha: Vec<u8>,
    image: Vec<u8>,
    staged: bool,
}

impl MockUpdate {
    /// The session as values.
    pub closed spec fn view(&self) -> MockUpdateView {
        MockUpdateView {
            active: self.active,
            size: self.size,
            got: self.got,
            next_seq: self.next_seq,
            since_ack: self.since_ack,
            sha: self.sha@,
            image: self.image@,
            staged: self.staged,
        }
    }

    /// The session's shape: the bytes taken are the image so far, within the declared size, and the
    /// window not yet full.
    pub closed spec fn wf(&self) -> bool {
        &&& self.got <= self.size
        &&& self.image@.len() == self.got
        &&& self.since_ack < OTA_CREDIT
    }

    /// No session, nothing staged.
    pub fn new() -> (u: MockUpdate)
        ensures
            u.wf(),
            !u.view().active && !u.view().staged && u.view().got == 0 && u.view().size == 0,
    {
        MockUpdate {
            active: false,
            size: 0,
            got: 0,
            next_seq: 0,
            since_ack: 0,
            sha: Vec::new(),
            image: Vec::new(),
            staged: false,
        }
    }

    /// Whether the last session staged a verified image.
    pub fn staged(&self) -> (r: bool)
        ensures
            r == self.view().staged,
    {
        self.staged
    }

    /// Whether a session is open.
    pub fn active(&self) -> (r: bool)
        ensures
            r == self.view().active,
    {
        self.active
    }

    /// BEGIN; see [`update_begin_spec`].
    pub fn begin(&mut self, body: &[u8]) -> (r: (u8, u32))
        requires
            old(self).wf(),
        ensures
            final(self).wf(),
            (final(self).view(), r) == update_begin_spec(old(self).view(), body@),
    {
        if body.len() < 36 {
            return (UPD_BAD_STATE, 0);
        }
        if self.active {
            return (UPD_BUSY, 0);
        }
        let size: u32 = (body[0] as u32) + (body[1] as u32) * 256 + (body[2] as u32) * 65536 + (body[3] as u32)
            * 16777216;
        if size == 0 || size > MOCK_SLOT_SIZE {
            return (UPD_TOO_BIG, MOCK_SLOT_SIZE);
        }
        let mut sha: Vec<u8> = Vec::new();
        let mut i: usize = 4;
        while i < 36
            invariant
                4 <= i <= 36 <= body@.len(),
                sha@ == body@.subrange(4, i as int),
            decreases 36 - i,
        {
            sha.push(body[i]);
            assert(sha@ =~= body@.subrange(4, i + 1));
            i = i + 1;
        }
        self.active = true;
        self.staged = false;
        self.size = size;
        self.got = 0;
        self.next_seq = 0;
        self.since_ack = 0;
        self.image = Vec::new();
        self.sha = sha;
        assert(self.view().image =~= Seq::<u8>::empty());
        (UPD_READY, OTA_CREDIT as u32)
    }

    /// DATA; see [`update_data_spec`].
    pub fn data(&mut self, body: &[u8]) -> (r: Option<(u8, u32)>)
        requires
            old(self).wf(),
        ensures
            final(self).wf(),
            (final(self).view(), r) == update_data_spec(old(self).view(), body@),
    {
        if body.len() < 3 {
            return Some((UPD_BAD_STATE, 1));
        }
        if !self.active {
            return Some((UPD_BAD_STATE, 0));
        }
        let seq: u16 = (body[0] as u16) + (body[1] as u16) * 256;
        let n = body.len() - 2;
        if self.next_seq > 0 && seq == self.next_seq - 1 {
            return Some((UPD_ACK, self.next_seq as u32));
        }
        if seq != self.next_seq {
            self.active = false;
            return Some((UPD_SEQ_GAP, self.next_seq as u32));
        }
        if n == 0 || n > OTA_CHUNK {
            self.active = false;
            return Some((UPD_BAD_STATE, OTA_CHUNK as u32));
        }
        if n as u32 > self.size - self.got {
            self.active = false;
            return Some((UPD_TOO_BIG, self.size));
        }
        let ghost before = self.image@;
        let bytes = slice_from(body, 2);
        extend_bytes(&mut self.image, bytes.as_slice());
        assert(self.image@ == before + body@.subrange(2, body@.len() as int));
        self.got = self.got + n as u32;
        self.next_seq = if self.next_seq == u16::MAX { 0 } else { self.next_seq + 1 };
        if self.since_ack + 1 >= OTA_CREDIT as u16 || self.got == self.size {
            self.since_ack = 0;
            return Some((UPD_ACK, self.next_seq as u32));
        }
        self.since_ack = self.since_ack + 1;
        None
    }

    /// END; see [`update_end_spec`].
    pub fn end(&mut self) -> (r: (u8, u32))
        requires
            old(self).wf(),
        ensures
            final(self).wf(),
            (final(self).view(), r) == update_end_spec(old(self).view()),
    {
        if !self.active {
            return (UPD_BAD_STATE, 0);
        }
        if self.got != self.size {
            self.active = false;
            return (UPD_BAD_STATE, self.size - self.got);
        }
        let digest = sha256(self.image.as_slice());
        self.active = false;
        if !bytes_eq(&digest, &self.sha) {
            return (UPD_BAD_DIGEST, 0);
        }
        self.staged = true;
        (UPD_STAGED, self.size)
    }
}

/// The bytes of `p` from `lo` on.
fn slice_from(p: &[u8], lo: usize) -> (v: Vec<u8>)
    requires
        lo <= p@.len(),
    ensures
        v@ == p@.subrange(lo as int, p@.len() as int),
{
    let mut v: Vec<u8> = Vec::new();
    let mut i = lo;
    while i < p.len()
        invariant
            lo <= i <= p@.len(),
            v@ == p@.subrange(lo as int, i as int),
        decreases p@.len() - i,
    {
        v.push(p[i]);
        assert(v@ =~= p@.subrange(lo as int, i + 1));
        i = i + 1;
    }
    v
}

} // verus!
