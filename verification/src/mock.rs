//! The tables of a fake box, for tests that run without hardware: the lock table as the firmware
//! holds it (four slots per axis and button, key edge bits, a short media list) and the clip
//! engine's packet triggers.
//!
//! Each frame's effect is stated over the table's view, so what the fake box answers is what its
//! rules make of the frames it saw.

use crate::bytes::{bytes_eq, copy_bytes};
use crate::lockrow::{pass_row, slots_write, Slots};
use crate::rules::{select, StoredTransform};
use crate::opcode::{CATCH_CLS_AXIS, CATCH_CLS_BTN, CATCH_CLS_KEY, CATCH_CLS_MEDIA, TF_OP_COUNT, TF_REMAP, TF_SWAP, TRANSFORM_MAX_ENTRIES};
use crate::rewrite::{REWRITE_HEAD_CONTROL, REWRITE_HEAD_REPORT};
use crate::opcode::{
    CATCH_CLS_ANY, CATCH_CLS_VEND_BULK, CATCH_CLS_VEND_INTR, MAX_PAYLOAD, REWRITE_MATCH_MAX,
    REWRITE_MAX_ENTRIES, REWRITE_PAYLOAD_POOL,
};
use crate::opcode::{
    CATCH_CLS_CONTROL, CATCH_CLS_EMIT, CATCH_CLS_HID_IN, CATCH_CLS_HID_OUT, CATCH_ID_ANY,
    CLIP_OP_TOGGLE, CLIP_PKT_MATCH_POOL, CLIP_PKT_TRIG_MAX, CLIP_TRIG_F_CONSUME, CLIP_TRIG_F_PRESENT,
    CLIP_TRIG_F_RUN, PKT_MATCH_MAX,
};
use crate::opcode::{
    LOCK_AXIS_PAN, LOCK_CLS_AXIS, LOCK_CLS_BTN, LOCK_CLS_KEY, LOCK_CLS_MEDIA, LOCK_DIR_AGAINST,
    LOCK_DIR_BOTH, LOCK_DIR_NEG, LOCK_DIR_POS, LOCK_DIR_WITH, LOCK_ID_ALL, LOCK_SCALE_BLOCK,
    LOCK_SCALE_PASS, MAX_BUTTONS,
};
use vstd::prelude::*;

verus! {

/// The axes (X, Y, wheel, pan) that precede the buttons among the box's lock targets.
pub const LOCK_TGT_BTN_BASE: usize = 4;
/// Lock targets: four axes and the box's buttons.
pub const LOCK_TGT_COUNT: usize = 20;
/// How many granular media locks the box holds.
pub const MEDIA_LOCK_MAX: usize = 8;
/// Key usages the box keeps edge bits for.
pub const KEY_USAGES: usize = 256;

/// The box's lock table.
#[derive(Debug, Clone)]
pub struct MockLockTable {
    /// The four slots of each axis, then each button.
    mouse: Vec<Slots>,
    /// The key blanket's press-edge bit.
    key_blanket_press: bool,
    /// The key blanket's release-edge bit.
    key_blanket_release: bool,
    /// Per key usage, whether its press edge is locked.
    key_press: Vec<bool>,
    /// Per key usage, whether its release edge is locked.
    key_release: Vec<bool>,
    /// The granular media locks; 0 is a free slot.
    media: Vec<u16>,
    media_blanket: bool,
}

/// The lock table as values.
pub struct LockTableView {
    pub mouse: Seq<Slots>,
    pub key_blanket_press: bool,
    pub key_blanket_release: bool,
    pub key_press: Seq<bool>,
    pub key_release: Seq<bool>,
    pub media: Seq<u16>,
    pub media_blanket: bool,
}

/// The scale one target stores: a button carries one bit, so a scale under a pass blocks and any
/// other passes.
pub open spec fn target_scale(is_button: bool, scale: i16) -> i16 {
    if !is_button {
        scale
    } else if scale < LOCK_SCALE_PASS {
        LOCK_SCALE_BLOCK
    } else {
        LOCK_SCALE_PASS
    }
}

/// A lock written onto one axis or button: `Both` writes the two signs and a pass to the bearing
/// pair (the two multiply); a button has no bearing, so a named relative direction leaves it as it
/// is.
pub open spec fn target_write(s: Slots, is_button: bool, dir: u8, scale: i16) -> Slots {
    if is_button && (dir == LOCK_DIR_WITH || dir == LOCK_DIR_AGAINST) {
        s
    } else {
        slots_write(s, dir, target_scale(is_button, scale))
    }
}

/// The targets `lo..hi` written with a lock.
pub open spec fn targets_write(m: Seq<Slots>, lo: int, hi: int, dir: u8, scale: i16) -> Seq<Slots> {
    Seq::new(
        m.len(),
        |t: int|
            if lo <= t < hi {
                target_write(m[t], t >= LOCK_TGT_BTN_BASE, dir, scale)
            } else {
                m[t]
            },
    )
}

/// The first free media slot, if any.
pub open spec fn first_free(media: Seq<u16>) -> Option<int>
    decreases media.len(),
{
    if media.len() == 0 {
        None
    } else {
        match first_free(media.drop_last()) {
            Some(i) => Some(i),
            None => if media.last() == 0 {
                Some(media.len() - 1)
            } else {
                None
            },
        }
    }
}

/// The media list after a granular media lock of `id`: a release frees every slot holding it; a
/// lock takes the first free slot unless it is held already or the list is full.
pub open spec fn media_write(media: Seq<u16>, id: u16, on: bool) -> Seq<u16> {
    if !on {
        media.map_values(|x: u16| if x == id { 0u16 } else { x })
    } else if media.contains(id) {
        media
    } else {
        match first_free(media) {
            Some(i) => media.update(i, id),
            None => media,
        }
    }
}

/// The lock table after a `LOCK` frame of `(class, id, dir)` at `scale`, on a box declaring
/// `n_buttons` buttons.
pub open spec fn lock_apply_spec(t: LockTableView, class: u8, id: u16, dir: u8, scale: i16, n_buttons: u8) -> LockTableView {
    let on = scale < LOCK_SCALE_PASS;
    if scale < 0 && class != LOCK_CLS_AXIS {
        t
    } else if class == LOCK_CLS_AXIS {
        if id == LOCK_ID_ALL {
            LockTableView { mouse: targets_write(t.mouse, 0, LOCK_AXIS_PAN + 1, dir, scale), ..t }
        } else if id <= LOCK_AXIS_PAN {
            LockTableView { mouse: targets_write(t.mouse, id as int, id + 1, dir, scale), ..t }
        } else {
            t
        }
    } else if class == LOCK_CLS_BTN {
        let nbtn = if n_buttons < MAX_BUTTONS { n_buttons as int } else { MAX_BUTTONS as int };
        if id == LOCK_ID_ALL {
            LockTableView {
                mouse: targets_write(t.mouse, LOCK_TGT_BTN_BASE as int, LOCK_TGT_BTN_BASE + nbtn, dir, scale),
                ..t
            }
        } else if (id as int) < nbtn {
            LockTableView {
                mouse: targets_write(t.mouse, LOCK_TGT_BTN_BASE + id, LOCK_TGT_BTN_BASE + id + 1, dir, scale),
                ..t
            }
        } else {
            t
        }
    } else if class == LOCK_CLS_KEY {
        let press = dir == LOCK_DIR_BOTH || dir == LOCK_DIR_POS;
        let release = dir == LOCK_DIR_BOTH || dir == LOCK_DIR_NEG;
        if id == LOCK_ID_ALL {
            LockTableView {
                key_blanket_press: if press { on } else { t.key_blanket_press },
                key_blanket_release: if release { on } else { t.key_blanket_release },
                ..t
            }
        } else {
            let u = (id % 256) as int;
            if u < 4 {
                t
            } else {
                LockTableView {
                    key_press: if press { t.key_press.update(u, on) } else { t.key_press },
                    key_release: if release { t.key_release.update(u, on) } else { t.key_release },
                    ..t
                }
            }
        }
    } else if class == LOCK_CLS_MEDIA {
        if id == LOCK_ID_ALL {
            LockTableView { media_blanket: on, ..t }
        } else if id != 0 {
            LockTableView { media: media_write(t.media, id, on), ..t }
        } else {
            t
        }
    } else {
        t
    }
}

impl MockLockTable {
    /// The table as values.
    pub closed spec fn view(&self) -> LockTableView {
        LockTableView {
            mouse: self.mouse@,
            key_blanket_press: self.key_blanket_press,
            key_blanket_release: self.key_blanket_release,
            key_press: self.key_press@,
            key_release: self.key_release@,
            media: self.media@,
            media_blanket: self.media_blanket,
        }
    }

    /// The table's shape: a row per target, an edge bit per key usage, the media list.
    pub closed spec fn wf(&self) -> bool {
        &&& self.mouse@.len() == LOCK_TGT_COUNT
        &&& self.key_press@.len() == KEY_USAGES
        &&& self.key_release@.len() == KEY_USAGES
        &&& self.media@.len() == MEDIA_LOCK_MAX
    }

    /// A table locking nothing.
    pub fn new() -> (t: MockLockTable)
        ensures
            t.wf(),
            t.view() == (LockTableView {
                mouse: Seq::new(LOCK_TGT_COUNT as nat, |i: int| pass_row()),
                key_blanket_press: false,
                key_blanket_release: false,
                key_press: Seq::new(KEY_USAGES as nat, |i: int| false),
                key_release: Seq::new(KEY_USAGES as nat, |i: int| false),
                media: Seq::new(MEDIA_LOCK_MAX as nat, |i: int| 0u16),
                media_blanket: false,
            }),
    {
        let mut mouse: Vec<Slots> = Vec::new();
        let mut i: usize = 0;
        while i < LOCK_TGT_COUNT
            invariant
                i <= LOCK_TGT_COUNT,
                mouse@ == Seq::new(i as nat, |j: int| pass_row()),
            decreases LOCK_TGT_COUNT - i,
        {
            mouse.push(Slots { pos: LOCK_SCALE_PASS, neg: LOCK_SCALE_PASS, with: LOCK_SCALE_PASS, against: LOCK_SCALE_PASS });
            assert(mouse@ =~= Seq::new((i + 1) as nat, |j: int| pass_row()));
            i = i + 1;
        }
        let key_press = falses(KEY_USAGES);
        let key_release = falses(KEY_USAGES);
        let mut media: Vec<u16> = Vec::new();
        let mut i: usize = 0;
        while i < MEDIA_LOCK_MAX
            invariant
                i <= MEDIA_LOCK_MAX,
                media@ == Seq::new(i as nat, |j: int| 0u16),
            decreases MEDIA_LOCK_MAX - i,
        {
            media.push(0);
            assert(media@ =~= Seq::new((i + 1) as nat, |j: int| 0u16));
            i = i + 1;
        }
        MockLockTable {
            mouse,
            key_blanket_press: false,
            key_blanket_release: false,
            key_press,
            key_release,
            media,
            media_blanket: false,
        }
    }

    /// The four slots of target `t`: the axes X, Y, wheel and pan, then the buttons.
    pub fn slots(&self, t: usize) -> (s: Slots)
        requires
            self.wf(),
            t < LOCK_TGT_COUNT,
        ensures
            s == self.view().mouse[t as int],
    {
        self.mouse[t]
    }

    /// The key blanket's press and release bits.
    pub fn key_blanket(&self) -> (r: (bool, bool))
        ensures
            r == (self.view().key_blanket_press, self.view().key_blanket_release),
    {
        (self.key_blanket_press, self.key_blanket_release)
    }

    /// Whether key usage `u`'s press and release edges are locked.
    pub fn key_edges(&self, u: u8) -> (r: (bool, bool))
        requires
            self.wf(),
        ensures
            r == (self.view().key_press[u as int], self.view().key_release[u as int]),
    {
        (self.key_press[u as usize], self.key_release[u as usize])
    }

    /// The granular media locks; 0 is a free slot.
    pub fn media(&self) -> (m: &Vec<u16>)
        ensures
            m@ == self.view().media,
    {
        &self.media
    }

    /// Whether the media blanket is set.
    pub fn media_blanket(&self) -> (b: bool)
        ensures
            b == self.view().media_blanket,
    {
        self.media_blanket
    }

    /// Write a lock onto the targets `lo..hi`.
    fn write_targets(&mut self, lo: usize, hi: usize, dir: u8, scale: i16)
        requires
            old(self).wf(),
            lo <= hi <= LOCK_TGT_COUNT,
        ensures
            final(self).wf(),
            final(self).view() == (LockTableView {
                mouse: targets_write(old(self).mouse@, lo as int, hi as int, dir, scale),
                ..old(self).view()
            }),
    {
        let ghost m0 = self.mouse@;
        let mut t = lo;
        while t < hi
            invariant
                lo <= t <= hi <= LOCK_TGT_COUNT,
                self.wf(),
                self.mouse@ == targets_write(m0, lo as int, t as int, dir, scale),
                self.key_blanket_press == old(self).key_blanket_press,
                self.key_blanket_release == old(self).key_blanket_release,
                self.key_press@ == old(self).key_press@,
                self.key_release@ == old(self).key_release@,
                self.media@ == old(self).media@,
                self.media_blanket == old(self).media_blanket,
                m0 == old(self).mouse@,
                m0.len() == LOCK_TGT_COUNT,
            decreases hi - t,
        {
            let is_button = t >= LOCK_TGT_BTN_BASE;
            let mut s = self.mouse[t];
            if !(is_button && (dir == LOCK_DIR_WITH || dir == LOCK_DIR_AGAINST)) {
                let v = if !is_button {
                    scale
                } else if scale < LOCK_SCALE_PASS {
                    LOCK_SCALE_BLOCK
                } else {
                    LOCK_SCALE_PASS
                };
                s.write(dir, v);
            }
            self.mouse.set(t, s);
            assert(self.mouse@ =~= targets_write(m0, lo as int, t + 1, dir, scale));
            t = t + 1;
        }
    }

    /// The first free media slot.
    fn first_free_slot(&self) -> (r: Option<usize>)
        ensures
            r matches Some(i) ==> first_free(self.media@) == Some(i as int) && i < self.media@.len(),
            r is None ==> first_free(self.media@) is None,
    {
        let mut i: usize = 0;
        while i < self.media.len()
            invariant
                i <= self.media@.len(),
                first_free(self.media@.take(i as int)) is None,
            decreases self.media@.len() - i,
        {
            assert(self.media@.take(i as int + 1).drop_last() =~= self.media@.take(i as int));
            if self.media[i] == 0 {
                proof {
                    lemma_first_free_prefix(self.media@, i as int + 1);
                }
                return Some(i);
            }
            i = i + 1;
        }
        assert(self.media@.take(self.media@.len() as int) =~= self.media@);
        None
    }

    /// A granular media lock of `id` (not 0, not the blanket).
    fn write_media(&mut self, id: u16, on: bool)
        requires
            old(self).wf(),
        ensures
            final(self).wf(),
            final(self).view() == (LockTableView { media: media_write(old(self).media@, id, on), ..old(self).view() }),
    {
        if !on {
            let ghost m0 = self.media@;
            let mut i: usize = 0;
            while i < self.media.len()
                invariant
                    i <= self.media@.len(),
                    self.wf(),
                    m0.len() == self.media@.len(),
                    forall|j: int| 0 <= j < i ==> self.media@[j] == (if m0[j] == id { 0u16 } else { m0[j] }),
                    forall|j: int| i <= j < self.media@.len() ==> self.media@[j] == m0[j],
                    self.mouse@ == old(self).mouse@,
                    self.key_blanket_press == old(self).key_blanket_press,
                    self.key_blanket_release == old(self).key_blanket_release,
                    self.key_press@ == old(self).key_press@,
                    self.key_release@ == old(self).key_release@,
                    self.media_blanket == old(self).media_blanket,
                    m0 == old(self).media@,
                decreases self.media@.len() - i,
            {
                if self.media[i] == id {
                    self.media.set(i, 0);
                }
                i = i + 1;
            }
            assert(self.media@ =~= media_write(m0, id, on));
            return;
        }
        let mut held = false;
        let mut i: usize = 0;
        while i < self.media.len()
            invariant
                i <= self.media@.len(),
                held == self.media@.take(i as int).contains(id),
            decreases self.media@.len() - i,
        {
            let ghost pre = self.media@.take(i as int);
            let ghost next = self.media@.take(i as int + 1);
            assert(next =~= pre.push(self.media@[i as int]));
            if self.media[i] == id {
                held = true;
                assert(next[i as int] == id);
            } else {
                proof {
                    if next.contains(id) {
                        let j = choose|j: int| 0 <= j < next.len() && next[j] == id;
                        assert(pre[j] == id);
                    }
                    if pre.contains(id) {
                        let j = choose|j: int| 0 <= j < pre.len() && pre[j] == id;
                        assert(next[j] == id);
                    }
                }
            }
            i = i + 1;
        }
        assert(self.media@.take(self.media@.len() as int) =~= self.media@);
        if held {
            return;
        }
        if let Some(i) = self.first_free_slot() {
            self.media.set(i, id);
        }
    }

    /// A `LOCK` frame of `(class, id, dir)` at `scale`, on a box declaring `n_buttons` buttons. A
    /// negative scale on a momentary class, an id the box has no slot for, or an unknown class
    /// changes nothing; a button blanket covers the declared buttons, up to the box's ceiling.
    pub fn apply(&mut self, class: u8, id: u16, dir: u8, scale: i16, n_buttons: u8)
        requires
            old(self).wf(),
        ensures
            final(self).wf(),
            final(self).view() == lock_apply_spec(old(self).view(), class, id, dir, scale, n_buttons),
    {
        if scale < 0 && class != LOCK_CLS_AXIS {
            return;
        }
        let on = scale < LOCK_SCALE_PASS;
        if class == LOCK_CLS_AXIS {
            if id == LOCK_ID_ALL {
                self.write_targets(0, (LOCK_AXIS_PAN + 1) as usize, dir, scale);
            } else if id <= LOCK_AXIS_PAN {
                self.write_targets(id as usize, id as usize + 1, dir, scale);
            }
        } else if class == LOCK_CLS_BTN {
            let nbtn: usize = if n_buttons < MAX_BUTTONS { n_buttons as usize } else { MAX_BUTTONS as usize };
            if id == LOCK_ID_ALL {
                self.write_targets(LOCK_TGT_BTN_BASE, LOCK_TGT_BTN_BASE + nbtn, dir, scale);
            } else if (id as usize) < nbtn {
                self.write_targets(LOCK_TGT_BTN_BASE + id as usize, LOCK_TGT_BTN_BASE + id as usize + 1, dir, scale);
            }
        } else if class == LOCK_CLS_KEY {
            let press = dir == LOCK_DIR_BOTH || dir == LOCK_DIR_POS;
            let release = dir == LOCK_DIR_BOTH || dir == LOCK_DIR_NEG;
            if id == LOCK_ID_ALL {
                if press {
                    self.key_blanket_press = on;
                }
                if release {
                    self.key_blanket_release = on;
                }
            } else {
                let u = (id % 256) as usize;
                if u >= 4 {
                    if press {
                        self.key_press.set(u, on);
                    }
                    if release {
                        self.key_release.set(u, on);
                    }
                }
            }
        } else if class == LOCK_CLS_MEDIA {
            if id == LOCK_ID_ALL {
                self.media_blanket = on;
            } else if id != 0 {
                self.write_media(id, on);
            }
        }
    }
}

/// A little-endian `u16` from two bytes.
pub open spec fn le_u16(lo: u8, hi: u8) -> u16 {
    (lo as int + hi as int * 256) as u16
}

impl MockLockTable {
    /// A `LOCK` frame's payload, `class, id (LE), direction, scale (LE)`: applied when it is whole
    /// and a clone is up (a lock needs the clone's targets), else dropped.
    pub fn apply_frame(&mut self, p: &Vec<u8>, clone_up: bool, n_buttons: u8)
        requires
            old(self).wf(),
        ensures
            final(self).wf(),
            p@.len() < 6 || !clone_up ==> final(self).view() == old(self).view(),
            p@.len() >= 6 && clone_up ==> final(self).view() == lock_apply_spec(
                old(self).view(),
                p@[0],
                le_u16(p@[1], p@[2]),
                p@[3],
                le_u16(p@[4], p@[5]) as i16,
                n_buttons,
            ),
    {
        if p.len() < 6 || !clone_up {
            return;
        }
        let id = (p[1] as u16) + (p[2] as u16) * 256;
        let scale = ((p[4] as u16) + (p[5] as u16) * 256) as i16;
        self.apply(p[0], id, p[3], scale, n_buttons);
    }
}

/// `n` cleared bits.
fn falses(n: usize) -> (v: Vec<bool>)
    ensures
        v@ == Seq::new(n as nat, |i: int| false),
{
    let mut v: Vec<bool> = Vec::new();
    let mut i: usize = 0;
    while i < n
        invariant
            i <= n,
            v@ == Seq::new(i as nat, |j: int| false),
        decreases n - i,
    {
        v.push(false);
        assert(v@ =~= Seq::new((i + 1) as nat, |j: int| false));
        i = i + 1;
    }
    v
}

/// A free slot found in a prefix is the first free slot of the whole list.
proof fn lemma_first_free_prefix(s: Seq<u16>, n: int)
    requires
        0 <= n <= s.len(),
        first_free(s.take(n)) is Some,
    ensures
        first_free(s) == first_free(s.take(n)),
    decreases s.len() - n,
{
    if n < s.len() {
        assert(s.take(n + 1).drop_last() =~= s.take(n));
        lemma_first_free_prefix(s, n + 1);
    } else {
        assert(s.take(n) =~= s);
    }
}


/// One packet trigger the box holds.
#[derive(Debug)]
pub struct MockPacketTrigger {
    pub class: u8,
    pub id: u16,
    pub dir: u8,
    pub action: u8,
    /// The consume and run flags it keeps.
    pub flags: u8,
    /// How many leading mask bytes select the stream; the rest are the run's condition.
    pub slen: u8,
    pub match_bytes: Vec<u8>,
    pub mask: Vec<u8>,
    /// Packets it fired on.
    pub hits: u32,
    /// Whether its run is live.
    pub live: bool,
}

/// A packet trigger as values.
pub struct PacketRow {
    pub class: u8,
    pub id: u16,
    pub dir: u8,
    pub action: u8,
    pub flags: u8,
    pub slen: u8,
    pub match_bytes: Seq<u8>,
    pub mask: Seq<u8>,
    pub hits: u32,
    pub live: bool,
}

/// A packet trigger's fields as values.
pub open spec fn packet_row(t: MockPacketTrigger) -> PacketRow {
    PacketRow {
        class: t.class,
        id: t.id,
        dir: t.dir,
        action: t.action,
        flags: t.flags,
        slen: t.slen,
        match_bytes: t.match_bytes@,
        mask: t.mask@,
        hits: t.hits,
        live: t.live,
    }
}

/// The match bytes the rows use of the shared pool.
pub open spec fn match_used(rows: Seq<PacketRow>) -> int
    decreases rows.len(),
{
    if rows.len() == 0 {
        0
    } else {
        match_used(rows.drop_last()) + rows.last().match_bytes.len()
    }
}

/// The first row keyed `(class, id, dir, match, mask)`, if any.
pub open spec fn row_at(rows: Seq<PacketRow>, class: u8, id: u16, dir: u8, m: Seq<u8>, k: Seq<u8>) -> Option<int>
    decreases rows.len(),
{
    if rows.len() == 0 {
        None
    } else {
        match row_at(rows.drop_last(), class, id, dir, m, k) {
            Some(i) => Some(i),
            None => {
                let r = rows.last();
                if r.class == class && r.id == id && r.dir == dir && r.match_bytes == m && r.mask == k {
                    Some(rows.len() - 1)
                } else {
                    None
                }
            },
        }
    }
}

/// Whether some match bit lies outside the mask: no packet could meet the trigger.
pub open spec fn stray_bit(m: Seq<u8>, k: Seq<u8>) -> bool {
    exists|j: int| 0 <= j < m.len() && #[trigger] (m[j] & !k[j]) != 0
}

/// The run condition's mask bytes: those past the selector.
pub open spec fn condition_bytes(k: Seq<u8>, slen: u8) -> Seq<u8> {
    if slen <= k.len() {
        k.subrange(slen as int, k.len() as int)
    } else {
        Seq::empty()
    }
}

/// Whether no byte of the condition masks a bit in.
pub open spec fn all_zero_bytes(s: Seq<u8>) -> bool {
    forall|j: int| 0 <= j < s.len() ==> #[trigger] s[j] == 0
}

/// A packet-trigger frame: add, overwrite or remove one trigger, or refuse the frame whole. Refused
/// for a class that is not a packet surface, a direction past the signed pair, a match too long or a
/// mask of another length, a direction the class never carries, a match bit outside the mask, a
/// removal of a key not held, an unknown action or flag, a consuming trigger on control traffic or
/// without the imperfect-clone opt-in, a run on control traffic, the blanket id, both directions or
/// an empty condition, a selector length without a run, and a new trigger past the table or the
/// match pool. Otherwise the table after it and the position of the trigger set or removed; an
/// identical re-set keeps the run and its count.
pub open spec fn packet_set_spec(
    rows: Seq<PacketRow>,
    class: u8,
    id: u16,
    dir: u8,
    action: u8,
    flags: u8,
    slen: u8,
    m: Seq<u8>,
    k: Seq<u8>,
    imperfect: bool,
) -> Option<(Seq<PacketRow>, int)> {
    let surface = CATCH_CLS_HID_IN <= class <= CATCH_CLS_EMIT;
    let one_way_in = class == CATCH_CLS_HID_IN || class == CATCH_CLS_EMIT;
    let ctl = class == CATCH_CLS_CONTROL;
    let keep = flags & (CLIP_TRIG_F_CONSUME | CLIP_TRIG_F_RUN);
    let found = row_at(rows, class, id, dir, m, k);
    if !surface || dir > LOCK_DIR_NEG || m.len() > PKT_MATCH_MAX || k.len() != m.len() {
        None
    } else if (dir == LOCK_DIR_NEG && one_way_in) || (dir == LOCK_DIR_POS && class == CATCH_CLS_HID_OUT) {
        None
    } else if stray_bit(m, k) {
        None
    } else if flags & CLIP_TRIG_F_PRESENT == 0 {
        match found {
            Some(i) => Some((rows.remove(i), i)),
            None => None,
        }
    } else if action > CLIP_OP_TOGGLE || flags & !(CLIP_TRIG_F_PRESENT | CLIP_TRIG_F_CONSUME | CLIP_TRIG_F_RUN) != 0 {
        None
    } else if flags & CLIP_TRIG_F_CONSUME != 0 && (ctl || !imperfect) {
        None
    } else if flags & CLIP_TRIG_F_RUN != 0 && (ctl || id == CATCH_ID_ANY || dir == LOCK_DIR_BOTH
        || all_zero_bytes(condition_bytes(k, slen))) {
        None
    } else if flags & CLIP_TRIG_F_RUN == 0 && slen != 0 {
        None
    } else {
        match found {
            Some(i) => {
                let r = rows[i];
                if r.action == action && r.flags == keep && r.slen == slen {
                    Some((rows, i))
                } else {
                    Some((rows.update(i, PacketRow { action, flags: keep, slen, hits: 0, live: false, ..r }), i))
                }
            },
            None => if rows.len() >= CLIP_PKT_TRIG_MAX || match_used(rows) + m.len() > CLIP_PKT_MATCH_POOL {
                None
            } else {
                Some((
                    rows.push(
                        PacketRow {
                            class,
                            id,
                            dir,
                            action,
                            flags: keep,
                            slen,
                            match_bytes: m,
                            mask: k,
                            hits: 0,
                            live: false,
                        },
                    ),
                    rows.len() as int,
                ))
            },
        }
    }
}

/// Rows whose match bytes each fit, use at most that many bytes each of the pool.
proof fn lemma_match_used_bound(rows: Seq<PacketRow>)
    requires
        forall|i: int| 0 <= i < rows.len() ==> #[trigger] rows[i].match_bytes.len() <= PKT_MATCH_MAX,
    ensures
        0 <= match_used(rows) <= rows.len() * PKT_MATCH_MAX,
    decreases rows.len(),
{
    if rows.len() > 0 {
        let d = rows.drop_last();
        assert forall|i: int| 0 <= i < d.len() implies #[trigger] d[i].match_bytes.len() <= PKT_MATCH_MAX by {
            assert(d[i] == rows[i]);
        }
        lemma_match_used_bound(d);
        assert(rows[rows.len() - 1].match_bytes.len() <= PKT_MATCH_MAX);
    }
}

/// A key found in a prefix is the first key of the whole table.
proof fn lemma_row_at_prefix(rows: Seq<PacketRow>, class: u8, id: u16, dir: u8, m: Seq<u8>, k: Seq<u8>, n: int)
    requires
        0 <= n <= rows.len(),
        row_at(rows.take(n), class, id, dir, m, k) is Some,
    ensures
        row_at(rows, class, id, dir, m, k) == row_at(rows.take(n), class, id, dir, m, k),
    decreases rows.len() - n,
{
    if n < rows.len() {
        assert(rows.take(n + 1).drop_last() =~= rows.take(n));
        lemma_row_at_prefix(rows, class, id, dir, m, k, n + 1);
    } else {
        assert(rows.take(n) =~= rows);
    }
}

/// A key found is at a position in the table.
proof fn lemma_row_at_bounds(rows: Seq<PacketRow>, class: u8, id: u16, dir: u8, m: Seq<u8>, k: Seq<u8>)
    ensures
        row_at(rows, class, id, dir, m, k) matches Some(i) ==> 0 <= i < rows.len(),
    decreases rows.len(),
{
    if rows.len() > 0 {
        lemma_row_at_bounds(rows.drop_last(), class, id, dir, m, k);
    }
}

/// Frame bytes ahead of a packet trigger's match and mask: class, id (LE), direction, action,
/// flags, selector length, match length.
pub const CLIP_PKT_TRIG_HDR: usize = 8;
/// The class and id a clip-trigger frame names to mean every trigger.
pub const CLIP_COND_ANY_CLASS: u8 = 0xFF;
pub const CLIP_COND_ANY_ID: u16 = 0xFFFF;

/// A trigger that does not consume its packet.
pub open spec fn not_consuming() -> spec_fn(PacketRow) -> bool {
    |r: PacketRow| r.flags & CLIP_TRIG_F_CONSUME == 0
}

/// The packet triggers after a `CLIP_TRIGGER` frame with payload `p`, and whether the frame was
/// the clear-all (which drops the input triggers too). A frame on a packet class carries the
/// header, then the match and the mask, and is a packet-trigger set or removal (see
/// [`packet_set_spec`]), dropped when cut short; otherwise only the present-flag-clear frame on
/// every class, every id and both directions acts, clearing every trigger.
pub open spec fn clip_trigger_frame_spec(rows: Seq<PacketRow>, p: Seq<u8>, imperfect: bool) -> (Seq<PacketRow>, bool) {
    if p.len() == 0 {
        (rows, false)
    } else if CATCH_CLS_HID_IN <= p[0] <= CATCH_CLS_EMIT {
        if p.len() < CLIP_PKT_TRIG_HDR || p.len() < CLIP_PKT_TRIG_HDR + 2 * (p[7] as int) {
            (rows, false)
        } else {
            let mlen = p[7] as int;
            match packet_set_spec(
                rows,
                p[0],
                le_u16(p[1], p[2]),
                p[3],
                p[4],
                p[5],
                p[6],
                p.subrange(8, 8 + mlen),
                p.subrange(8 + mlen, 8 + 2 * mlen),
                imperfect,
            ) {
                Some((r, _)) => (r, false),
                None => (rows, false),
            }
        }
    } else if p.len() < 6 {
        (rows, false)
    } else if p[0] == CLIP_COND_ANY_CLASS && le_u16(p[1], p[2]) == CLIP_COND_ANY_ID && p[3] == LOCK_DIR_BOTH
        && p[5] & CLIP_TRIG_F_PRESENT == 0 {
        (Seq::empty(), true)
    } else {
        (rows, false)
    }
}

/// The bytes `lo..hi` of `p`.
fn sub_bytes(p: &Vec<u8>, lo: usize, hi: usize) -> (v: Vec<u8>)
    requires
        lo <= hi <= p@.len(),
    ensures
        v@ == p@.subrange(lo as int, hi as int),
{
    let mut v: Vec<u8> = Vec::new();
    let mut i = lo;
    while i < hi
        invariant
            lo <= i <= hi <= p@.len(),
            v@ == p@.subrange(lo as int, i as int),
        decreases hi - i,
    {
        v.push(p[i]);
        assert(v@ =~= p@.subrange(lo as int, i + 1));
        i = i + 1;
    }
    v
}

/// A copy of a packet trigger.
fn copy_trigger(t: &MockPacketTrigger) -> (c: MockPacketTrigger)
    ensures
        packet_row(c) == packet_row(*t),
{
    MockPacketTrigger {
        class: t.class,
        id: t.id,
        dir: t.dir,
        action: t.action,
        flags: t.flags,
        slen: t.slen,
        match_bytes: copy_bytes(&t.match_bytes),
        mask: copy_bytes(&t.mask),
        hits: t.hits,
        live: t.live,
    }
}

/// The clip engine's packet triggers on the fake box.
#[derive(Debug)]
pub struct MockPacketTriggers {
    rows: Vec<MockPacketTrigger>,
}

impl MockPacketTriggers {
    /// The triggers as values.
    pub closed spec fn view(&self) -> Seq<PacketRow> {
        self.rows@.map_values(|t: MockPacketTrigger| packet_row(t))
    }

    /// The table's shape: within its row limit, each match within its limit and its mask as long.
    pub closed spec fn wf(&self) -> bool {
        &&& self.rows@.len() <= CLIP_PKT_TRIG_MAX
        &&& forall|i: int| 0 <= i < self.rows@.len() ==> (#[trigger] self.rows@[i]).match_bytes@.len()
            <= PKT_MATCH_MAX && self.rows@[i].mask@.len() == self.rows@[i].match_bytes@.len()
    }

    /// No triggers.
    pub fn new() -> (t: MockPacketTriggers)
        ensures
            t.wf(),
            t.view() == Seq::<PacketRow>::empty(),
    {
        let t = MockPacketTriggers { rows: Vec::new() };
        assert(t.view() =~= Seq::<PacketRow>::empty());
        t
    }

    /// The match bytes the triggers use.
    fn used(&self) -> (n: usize)
        requires
            self.wf(),
        ensures
            n == match_used(self.view()),
    {
        let ghost v = self.view();
        let mut n: usize = 0;
        let mut i: usize = 0;
        while i < self.rows.len()
            invariant
                i <= self.rows@.len(),
                self.wf(),
                v == self.view(),
                n == match_used(v.take(i as int)),
            decreases self.rows@.len() - i,
        {
            proof {
                let t = v.take(i as int + 1);
                assert(t.drop_last() =~= v.take(i as int));
                assert forall|j: int| 0 <= j < t.len() implies #[trigger] t[j].match_bytes.len() <= PKT_MATCH_MAX by {
                    assert(t[j] == packet_row(self.rows@[j]));
                }
                lemma_match_used_bound(t);
            }
            n = n + self.rows[i].match_bytes.len();
            i = i + 1;
        }
        assert(v.take(v.len() as int) =~= v);
        n
    }

    /// The position of the trigger keyed `(class, id, dir, match, mask)`.
    fn find(&self, class: u8, id: u16, dir: u8, match_bytes: &Vec<u8>, mask: &Vec<u8>) -> (r: Option<usize>)
        ensures
            r matches Some(i) ==> row_at(self.view(), class, id, dir, match_bytes@, mask@) == Some(i as int),
            r is None ==> row_at(self.view(), class, id, dir, match_bytes@, mask@) is None,
    {
        let ghost v = self.view();
        let mut i: usize = 0;
        while i < self.rows.len()
            invariant
                i <= self.rows@.len(),
                v == self.view(),
                row_at(v.take(i as int), class, id, dir, match_bytes@, mask@) is None,
            decreases self.rows@.len() - i,
        {
            let r = &self.rows[i];
            assert(v.take(i as int + 1).drop_last() =~= v.take(i as int));
            assert(v.take(i as int + 1).last() == packet_row(self.rows@[i as int]));
            if r.class == class && r.id == id && r.dir == dir && bytes_eq(&r.match_bytes, match_bytes)
                && bytes_eq(&r.mask, mask) {
                proof {
                    lemma_row_at_prefix(v, class, id, dir, match_bytes@, mask@, i as int + 1);
                }
                return Some(i);
            }
            i = i + 1;
        }
        assert(v.take(v.len() as int) =~= v);
        None
    }

    /// Drop every trigger.
    pub fn clear(&mut self)
        ensures
            final(self).wf(),
            final(self).view() == Seq::<PacketRow>::empty(),
    {
        self.rows = Vec::new();
        assert(self.view() =~= Seq::<PacketRow>::empty());
    }

    /// How many triggers are held.
    pub fn len(&self) -> (n: usize)
        ensures
            n == self.view().len(),
    {
        self.rows.len()
    }

    /// The triggers held, in the box's order.
    pub fn rows(&self) -> (r: &Vec<MockPacketTrigger>)
        ensures
            r@.map_values(|t: MockPacketTrigger| packet_row(t)) == self.view(),
    {
        &self.rows
    }

    /// The imperfect-clone opt-in went off: consuming a packet is dropping traffic, so every
    /// consuming trigger goes, the rest keeping their order.
    pub fn drop_consuming(&mut self)
        requires
            old(self).wf(),
        ensures
            final(self).wf(),
            final(self).view() == select(old(self).view(), not_consuming()),
    {
        let ghost v = self.view();
        let mut kept: Vec<MockPacketTrigger> = Vec::new();
        let mut i: usize = 0;
        while i < self.rows.len()
            invariant
                i <= self.rows@.len(),
                self.wf(),
                v == self.view(),
                kept@.len() <= i,
                kept@.map_values(|t: MockPacketTrigger| packet_row(t)) == select(v.take(i as int), not_consuming()),
                forall|x: int| 0 <= x < kept@.len() ==> (#[trigger] kept@[x]).match_bytes@.len() <= PKT_MATCH_MAX
                    && kept@[x].mask@.len() == kept@[x].match_bytes@.len(),
            decreases self.rows@.len() - i,
        {
            let ghost before = kept@;
            assert(v.take(i as int + 1).drop_last() =~= v.take(i as int));
            assert(v.take(i as int + 1).last() == packet_row(self.rows@[i as int]));
            if self.rows[i].flags & CLIP_TRIG_F_CONSUME == 0 {
                let c = copy_trigger(&self.rows[i]);
                kept.push(c);
                assert(kept@.map_values(|t: MockPacketTrigger| packet_row(t)) =~= before.map_values(
                    |t: MockPacketTrigger| packet_row(t),
                ).push(packet_row(c)));
                assert forall|x: int| 0 <= x < kept@.len() implies (#[trigger] kept@[x]).match_bytes@.len()
                    <= PKT_MATCH_MAX && kept@[x].mask@.len() == kept@[x].match_bytes@.len() by {
                    if x < before.len() {
                        assert(kept@[x] == before[x]);
                    } else {
                        assert(packet_row(kept@[x]) == packet_row(self.rows@[i as int]));
                    }
                }
            }
            i = i + 1;
        }
        assert(v.take(v.len() as int) =~= v);
        self.rows = kept;
    }

    /// A `CLIP_TRIGGER` frame's payload; see [`clip_trigger_frame_spec`]. Returns whether it was
    /// the clear-all, which drops the input triggers too.
    pub fn apply_trigger_frame(&mut self, p: &Vec<u8>, imperfect: bool) -> (clear_all: bool)
        requires
            old(self).wf(),
        ensures
            final(self).wf(),
            (final(self).view(), clear_all) == clip_trigger_frame_spec(old(self).view(), p@, imperfect),
    {
        if p.len() == 0 {
            return false;
        }
        let class = p[0];
        if CATCH_CLS_HID_IN <= class && class <= CATCH_CLS_EMIT {
            if p.len() < CLIP_PKT_TRIG_HDR {
                return false;
            }
            let mlen = p[7] as usize;
            if p.len() < CLIP_PKT_TRIG_HDR + 2 * mlen {
                return false;
            }
            let m = sub_bytes(p, 8, 8 + mlen);
            let k = sub_bytes(p, 8 + mlen, 8 + 2 * mlen);
            let id = (p[1] as u16) + (p[2] as u16) * 256;
            let _ = self.set(class, id, p[3], p[4], p[5], p[6], &m, &k, imperfect);
            return false;
        }
        if p.len() < 6 {
            return false;
        }
        let id = (p[1] as u16) + (p[2] as u16) * 256;
        if class == CLIP_COND_ANY_CLASS && id == CLIP_COND_ANY_ID && p[3] == LOCK_DIR_BOTH && p[5] & CLIP_TRIG_F_PRESENT
            == 0 {
            self.rows = Vec::new();
            assert(self.view() =~= Seq::<PacketRow>::empty());
            return true;
        }
        false
    }

    /// A packet-trigger frame; see [`packet_set_spec`]. The table changes only when the frame is
    /// taken.
    pub fn set(
        &mut self,
        class: u8,
        id: u16,
        dir: u8,
        action: u8,
        flags: u8,
        slen: u8,
        match_bytes: &Vec<u8>,
        mask: &Vec<u8>,
        imperfect: bool,
    ) -> (r: Option<usize>)
        requires
            old(self).wf(),
        ensures
            final(self).wf(),
            match packet_set_spec(old(self).view(), class, id, dir, action, flags, slen, match_bytes@, mask@, imperfect) {
                Some((rows, i)) => r == Some(i as usize) && final(self).view() == rows,
                None => r is None && final(self).view() == old(self).view(),
            },
    {
        let ghost v0 = self.view();
        let mlen = match_bytes.len();
        let surface = CATCH_CLS_HID_IN <= class && class <= CATCH_CLS_EMIT;
        if !surface || dir > LOCK_DIR_NEG || mlen > PKT_MATCH_MAX || mask.len() != mlen {
            return None;
        }
        let one_way_in = class == CATCH_CLS_HID_IN || class == CATCH_CLS_EMIT;
        if (dir == LOCK_DIR_NEG && one_way_in) || (dir == LOCK_DIR_POS && class == CATCH_CLS_HID_OUT) {
            return None;
        }
        let mut j: usize = 0;
        while j < mlen
            invariant
                j <= mlen,
                mlen == match_bytes@.len(),
                mask@.len() == mlen,
                self.wf(),
                self.view() == v0,
                v0 == old(self).view(),
                forall|x: int| 0 <= x < j ==> #[trigger] (match_bytes@[x] & !mask@[x]) == 0,
            decreases mlen - j,
        {
            if match_bytes[j] & !mask[j] != 0 {
                assert((match_bytes@[j as int] & !mask@[j as int]) != 0);
                return None;
            }
            j = j + 1;
        }
        assert(!stray_bit(match_bytes@, mask@));
        let found = self.find(class, id, dir, match_bytes, mask);
        proof {
            lemma_row_at_bounds(v0, class, id, dir, match_bytes@, mask@);
        }
        if flags & CLIP_TRIG_F_PRESENT == 0 {
            match found {
                Some(i) => {
                    self.rows.remove(i);
                    proof {
                        assert(self.view() =~= v0.remove(i as int));
                        assert forall|x: int| 0 <= x < self.rows@.len() implies (#[trigger] self.rows@[x]).match_bytes@.len()
                            <= PKT_MATCH_MAX && self.rows@[x].mask@.len() == self.rows@[x].match_bytes@.len() by {
                            if x < i {
                                assert(self.rows@[x] == old(self).rows@[x]);
                            } else {
                                assert(self.rows@[x] == old(self).rows@[x + 1]);
                            }
                        }
                    }
                    return Some(i);
                },
                None => {
                    return None;
                },
            }
        }
        if action > CLIP_OP_TOGGLE || flags & !(CLIP_TRIG_F_PRESENT | CLIP_TRIG_F_CONSUME | CLIP_TRIG_F_RUN) != 0 {
            return None;
        }
        let ctl = class == CATCH_CLS_CONTROL;
        if flags & CLIP_TRIG_F_CONSUME != 0 && (ctl || !imperfect) {
            return None;
        }
        if flags & CLIP_TRIG_F_RUN != 0 {
            let mut zero = true;
            if (slen as usize) <= mask.len() {
                let mut x: usize = slen as usize;
                while x < mask.len()
                    invariant
                        slen <= x <= mask@.len(),
                        zero == (forall|y: int| slen <= y < x ==> #[trigger] mask@[y] == 0),
                    decreases mask@.len() - x,
                {
                    if mask[x] != 0 {
                        zero = false;
                    }
                    x = x + 1;
                }
                proof {
                    let c = condition_bytes(mask@, slen);
                    if zero {
                        assert forall|y: int| 0 <= y < c.len() implies #[trigger] c[y] == 0 by {
                            assert(c[y] == mask@[y + slen]);
                        }
                    } else {
                        let y = choose|y: int| slen <= y < mask@.len() && mask@[y] != 0;
                        assert(c[y - slen] == mask@[y]);
                    }
                }
            }
            if ctl || id == CATCH_ID_ANY || dir == LOCK_DIR_BOTH || zero {
                return None;
            }
        } else if slen != 0 {
            return None;
        }
        let keep = flags & (CLIP_TRIG_F_CONSUME | CLIP_TRIG_F_RUN);
        match found {
            Some(i) => {
                let same = self.rows[i].action == action && self.rows[i].flags == keep && self.rows[i].slen == slen;
                if !same {
                    let old_row = self.rows.remove(i);
                    let row = MockPacketTrigger {
                        class: old_row.class,
                        id: old_row.id,
                        dir: old_row.dir,
                        action,
                        flags: keep,
                        slen,
                        match_bytes: old_row.match_bytes,
                        mask: old_row.mask,
                        hits: 0,
                        live: false,
                    };
                    self.rows.insert(i, row);
                    proof {
                        assert(self.view() =~= v0.update(
                            i as int,
                            PacketRow { action, flags: keep, slen, hits: 0, live: false, ..v0[i as int] },
                        ));
                        assert forall|x: int| 0 <= x < self.rows@.len() implies (#[trigger] self.rows@[x]).match_bytes@.len()
                            <= PKT_MATCH_MAX && self.rows@[x].mask@.len() == self.rows@[x].match_bytes@.len() by {
                            if x != i {
                                assert(self.rows@[x] == old(self).rows@[x]);
                            } else {
                                assert(self.rows@[x].match_bytes@ == old(self).rows@[x].match_bytes@);
                            }
                        }
                    }
                }
                Some(i)
            },
            None => {
                if self.rows.len() >= CLIP_PKT_TRIG_MAX {
                    return None;
                }
                proof {
                    assert forall|x: int| 0 <= x < v0.len() implies #[trigger] v0[x].match_bytes.len() <= PKT_MATCH_MAX by {
                        assert(v0[x] == packet_row(self.rows@[x]));
                    }
                    lemma_match_used_bound(v0);
                }
                if self.used() + mlen > CLIP_PKT_MATCH_POOL {
                    return None;
                }
                let n = self.rows.len();
                self.rows.push(
                    MockPacketTrigger {
                        class,
                        id,
                        dir,
                        action,
                        flags: keep,
                        slen,
                        match_bytes: copy_bytes(match_bytes),
                        mask: copy_bytes(mask),
                        hits: 0,
                        live: false,
                    },
                );
                proof {
                    assert(self.view() =~= v0.push(
                        PacketRow {
                            class,
                            id,
                            dir,
                            action,
                            flags: keep,
                            slen,
                            match_bytes: match_bytes@,
                            mask: mask@,
                            hits: 0,
                            live: false,
                        },
                    ));
                    assert forall|x: int| 0 <= x < self.rows@.len() implies (#[trigger] self.rows@[x]).match_bytes@.len()
                        <= PKT_MATCH_MAX && self.rows@[x].mask@.len() == self.rows@[x].match_bytes@.len() by {
                        if x < n {
                            assert(self.rows@[x] == old(self).rows@[x]);
                        }
                    }
                }
                Some(n)
            },
        }
    }
}


/// One rewrite rule the box holds.
#[derive(Debug)]
pub struct MockRewrite {
    pub class: u8,
    pub id: u16,
    pub dir: u8,
    pub action: u8,
    pub offset: u16,
    pub match_bytes: Vec<u8>,
    pub mask: Vec<u8>,
    pub payload: Vec<u8>,
    /// Packets it rewrote.
    pub hits: u16,
}

/// A rewrite rule as values.
pub struct RewriteRow {
    pub class: u8,
    pub id: u16,
    pub dir: u8,
    pub action: u8,
    pub offset: u16,
    pub match_bytes: Seq<u8>,
    pub mask: Seq<u8>,
    pub payload: Seq<u8>,
    pub hits: u16,
}

/// A rule's fields as values.
pub open spec fn rewrite_row(r: MockRewrite) -> RewriteRow {
    RewriteRow {
        class: r.class,
        id: r.id,
        dir: r.dir,
        action: r.action,
        offset: r.offset,
        match_bytes: r.match_bytes@,
        mask: r.mask@,
        payload: r.payload@,
        hits: r.hits,
    }
}

/// The box's rewrite table as values: its rules, the generation that moves on each change, and
/// whether the last refusal was for room.
pub struct RewriteTableView {
    pub rows: Seq<RewriteRow>,
    pub generation: u8,
    pub full: bool,
}

/// Whether a rule carries the key `(class, id, dir, match, mask)`.
pub open spec fn rewrite_keyed(r: RewriteRow, class: u8, id: u16, dir: u8, m: Seq<u8>, k: Seq<u8>) -> bool {
    r.class == class && r.id == id && r.dir == dir && r.match_bytes == m && r.mask == k
}

/// The first rule keyed `(class, id, dir, match, mask)`, if any.
pub open spec fn rewrite_at(rows: Seq<RewriteRow>, class: u8, id: u16, dir: u8, m: Seq<u8>, k: Seq<u8>) -> Option<int>
    decreases rows.len(),
{
    if rows.len() == 0 {
        None
    } else {
        match rewrite_at(rows.drop_last(), class, id, dir, m, k) {
            Some(i) => Some(i),
            None => if rewrite_keyed(rows.last(), class, id, dir, m, k) {
                Some(rows.len() - 1)
            } else {
                None
            },
        }
    }
}

/// The payload bytes the rules not keyed `(class, id, dir, match, mask)` hold of the pool.
pub open spec fn pool_used_except(rows: Seq<RewriteRow>, class: u8, id: u16, dir: u8, m: Seq<u8>, k: Seq<u8>) -> int
    decreases rows.len(),
{
    if rows.len() == 0 {
        0
    } else {
        pool_used_except(rows.drop_last(), class, id, dir, m, k) + if rewrite_keyed(rows.last(), class, id, dir, m, k) {
            0
        } else {
            rows.last().payload.len() as int
        }
    }
}

/// Whether the box takes a rule's action on its class with this payload: the payload must fit the
/// head the class holds (a 64-byte report, or a control transfer's setup and data), a drop is for
/// a report stream only, and the answers, stalls, NAKs and reply rewrites are for control traffic.
/// Actions by number: pass, patch, replace, drop, answer, stall, NAK, reply patch, reply replace.
pub open spec fn rewrite_admissible(class: u8, action: u8, offset: u16, plen: int) -> bool {
    let ctl = class == CATCH_CLS_CONTROL;
    let any = class == CATCH_CLS_ANY;
    let head = if ctl { REWRITE_HEAD_CONTROL as int } else { REWRITE_HEAD_REPORT as int };
    let fits = if action == 1 || action == 7 {
        offset + plen <= head
    } else if action == 2 {
        plen <= head
    } else if action == 4 || action == 8 {
        plen <= REWRITE_HEAD_CONTROL
    } else {
        true
    };
    fits && if action <= 2 {
        true
    } else if action == 3 {
        !ctl && !any
    } else if action <= 8 {
        ctl
    } else {
        false
    }
}

/// A class whose traffic the box rewrites.
pub open spec fn rewritable(class: u8) -> bool {
    class == CATCH_CLS_HID_IN || class == CATCH_CLS_HID_OUT || class == CATCH_CLS_VEND_INTR || class
        == CATCH_CLS_VEND_BULK || class == CATCH_CLS_CONTROL || class == CATCH_CLS_EMIT || class == CATCH_CLS_ANY
}

/// The generation after a change.
pub open spec fn next_generation(g: u8) -> u8 {
    if g == 255 {
        0
    } else {
        (g + 1) as u8
    }
}

/// The rewrite table after a `REWRITE` frame with payload `p`: `class, id (LE), direction, state,
/// action, offset (LE), match length, match, mask, payload`. Dropped when truncated, when its
/// read-back reply could not carry it, or with the imperfect-clone opt-in off (but for the
/// whole-table clear). The clear empties the table; a state of 0 removes the rule at its key; else
/// the rule is set: refused whole for a class never rewritten, a relative direction, a match past
/// the compared head or an action the class or its head cannot take; an identical re-set changes
/// nothing; a set past the payload pool or the table marks the table full; otherwise the rule
/// joins the end (an overwrite leaves its place and loses its count). Each change moves the
/// generation on and clears `full`.
pub open spec fn rewrite_frame_spec(t: RewriteTableView, p: Seq<u8>, allowed: bool) -> RewriteTableView {
    if p.len() < 9 {
        t
    } else {
        let mlen = p[8] as int;
        let cls = p[0];
        let id = le_u16(p[1], p[2]);
        let dir = p[3];
        let state = p[4];
        let action = p[5];
        let offset = le_u16(p[6], p[7]);
        let clear_all = state == 0 && cls == 0xFF && id == 0xFFFF;
        if p.len() < 9 + 2 * mlen || p.len() > MAX_PAYLOAD - 2 {
            t
        } else if !allowed && !clear_all {
            t
        } else if clear_all {
            if t.rows.len() > 0 {
                RewriteTableView { rows: Seq::empty(), generation: next_generation(t.generation), full: false }
            } else {
                RewriteTableView { full: false, ..t }
            }
        } else if !rewritable(cls) || dir > LOCK_DIR_NEG || mlen > REWRITE_MATCH_MAX {
            t
        } else {
            let m = p.subrange(9, 9 + mlen);
            let k = p.subrange(9 + mlen, 9 + 2 * mlen);
            let payload = p.subrange(9 + 2 * mlen, p.len() as int);
            let pos = rewrite_at(t.rows, cls, id, dir, m, k);
            if state != 0 && !rewrite_admissible(cls, action, offset, payload.len() as int) {
                t
            } else if state == 0 {
                match pos {
                    Some(i) => RewriteTableView {
                        rows: t.rows.remove(i),
                        generation: next_generation(t.generation),
                        full: false,
                    },
                    None => t,
                }
            } else if pos matches Some(i) && t.rows[i].action == action && t.rows[i].offset == offset
                && t.rows[i].payload == payload {
                t
            } else if pool_used_except(t.rows, cls, id, dir, m, k) + payload.len() > REWRITE_PAYLOAD_POOL
                || (pos is None && t.rows.len() >= REWRITE_MAX_ENTRIES) {
                RewriteTableView { full: true, ..t }
            } else {
                let rest = match pos {
                    Some(i) => t.rows.remove(i),
                    None => t.rows,
                };
                RewriteTableView {
                    rows: rest.push(
                        RewriteRow { class: cls, id, dir, action, offset, match_bytes: m, mask: k, payload, hits: 0 },
                    ),
                    generation: next_generation(t.generation),
                    full: false,
                }
            }
        }
    }
}

/// Rules whose payloads each fit a frame hold at most that many bytes each of the pool.
proof fn lemma_pool_used_bound(rows: Seq<RewriteRow>, class: u8, id: u16, dir: u8, m: Seq<u8>, k: Seq<u8>)
    requires
        forall|i: int| 0 <= i < rows.len() ==> #[trigger] rows[i].payload.len() <= MAX_PAYLOAD,
    ensures
        0 <= pool_used_except(rows, class, id, dir, m, k) <= rows.len() * MAX_PAYLOAD,
    decreases rows.len(),
{
    if rows.len() > 0 {
        let d = rows.drop_last();
        assert forall|i: int| 0 <= i < d.len() implies #[trigger] d[i].payload.len() <= MAX_PAYLOAD by {
            assert(d[i] == rows[i]);
        }
        lemma_pool_used_bound(d, class, id, dir, m, k);
        assert(rows[rows.len() - 1].payload.len() <= MAX_PAYLOAD);
    }
}

/// A key found in a prefix is the first key of the whole table.
proof fn lemma_rewrite_at_prefix(rows: Seq<RewriteRow>, class: u8, id: u16, dir: u8, m: Seq<u8>, k: Seq<u8>, n: int)
    requires
        0 <= n <= rows.len(),
        rewrite_at(rows.take(n), class, id, dir, m, k) is Some,
    ensures
        rewrite_at(rows, class, id, dir, m, k) == rewrite_at(rows.take(n), class, id, dir, m, k),
    decreases rows.len() - n,
{
    if n < rows.len() {
        assert(rows.take(n + 1).drop_last() =~= rows.take(n));
        lemma_rewrite_at_prefix(rows, class, id, dir, m, k, n + 1);
    } else {
        assert(rows.take(n) =~= rows);
    }
}

/// The bytes `lo..hi` of `p`.
fn slice_bytes(p: &Vec<u8>, lo: usize, hi: usize) -> (v: Vec<u8>)
    requires
        lo <= hi <= p@.len(),
    ensures
        v@ == p@.subrange(lo as int, hi as int),
{
    let mut v: Vec<u8> = Vec::new();
    let mut i = lo;
    while i < hi
        invariant
            lo <= i <= hi <= p@.len(),
            v@ == p@.subrange(lo as int, i as int),
        decreases hi - i,
    {
        v.push(p[i]);
        assert(v@ =~= p@.subrange(lo as int, i + 1));
        i = i + 1;
    }
    v
}

/// The box's rewrite table on the fake box.
#[derive(Debug)]
pub struct MockRewrites {
    rows: Vec<MockRewrite>,
    generation: u8,
    full: bool,
}

impl MockRewrites {
    /// The table as values.
    pub closed spec fn view(&self) -> RewriteTableView {
        RewriteTableView {
            rows: self.rows@.map_values(|r: MockRewrite| rewrite_row(r)),
            generation: self.generation,
            full: self.full,
        }
    }

    /// The table's shape: within its entry limit, each payload within a frame.
    pub closed spec fn wf(&self) -> bool {
        &&& self.rows@.len() <= REWRITE_MAX_ENTRIES
        &&& forall|i: int| 0 <= i < self.rows@.len() ==> (#[trigger] self.rows@[i]).payload@.len() <= MAX_PAYLOAD
    }

    /// No rules, generation 0.
    pub fn new() -> (t: MockRewrites)
        ensures
            t.wf(),
            t.view() == (RewriteTableView { rows: Seq::empty(), generation: 0, full: false }),
    {
        let t = MockRewrites { rows: Vec::new(), generation: 0, full: false };
        assert(t.view().rows =~= Seq::<RewriteRow>::empty());
        t
    }

    /// Empty the table and restart its generation, as a release of the session does.
    pub fn reset(&mut self)
        ensures
            final(self).wf(),
            final(self).view() == (RewriteTableView { rows: Seq::empty(), generation: 0, full: false }),
    {
        self.rows = Vec::new();
        self.generation = 0;
        self.full = false;
        assert(self.view().rows =~= Seq::<RewriteRow>::empty());
    }

    /// The rules held, in the box's order.
    pub fn rows(&self) -> (r: &Vec<MockRewrite>)
        ensures
            r@.map_values(|x: MockRewrite| rewrite_row(x)) == self.view().rows,
    {
        &self.rows
    }

    /// The generation, which moves on with each change.
    pub fn generation(&self) -> (g: u8)
        ensures
            g == self.view().generation,
    {
        self.generation
    }

    /// Whether the last refusal was for room.
    pub fn full(&self) -> (f: bool)
        ensures
            f == self.view().full,
    {
        self.full
    }

    /// The position of the rule keyed `(class, id, dir, match, mask)`.
    fn find(&self, class: u8, id: u16, dir: u8, m: &Vec<u8>, k: &Vec<u8>) -> (r: Option<usize>)
        ensures
            r matches Some(i) ==> rewrite_at(self.view().rows, class, id, dir, m@, k@) == Some(i as int)
                && i < self.rows@.len(),
            r is None ==> rewrite_at(self.view().rows, class, id, dir, m@, k@) is None,
    {
        let ghost v = self.view().rows;
        let mut i: usize = 0;
        while i < self.rows.len()
            invariant
                i <= self.rows@.len(),
                v == self.view().rows,
                rewrite_at(v.take(i as int), class, id, dir, m@, k@) is None,
            decreases self.rows@.len() - i,
        {
            let r = &self.rows[i];
            assert(v.take(i as int + 1).drop_last() =~= v.take(i as int));
            assert(v.take(i as int + 1).last() == rewrite_row(self.rows@[i as int]));
            if r.class == class && r.id == id && r.dir == dir && bytes_eq(&r.match_bytes, m) && bytes_eq(&r.mask, k) {
                proof {
                    lemma_rewrite_at_prefix(v, class, id, dir, m@, k@, i as int + 1);
                }
                return Some(i);
            }
            i = i + 1;
        }
        assert(v.take(v.len() as int) =~= v);
        None
    }

    /// The payload bytes the rules not keyed `(class, id, dir, match, mask)` hold.
    fn used_except(&self, class: u8, id: u16, dir: u8, m: &Vec<u8>, k: &Vec<u8>) -> (n: usize)
        requires
            self.wf(),
        ensures
            n == pool_used_except(self.view().rows, class, id, dir, m@, k@),
    {
        let ghost v = self.view().rows;
        let mut n: usize = 0;
        let mut i: usize = 0;
        while i < self.rows.len()
            invariant
                i <= self.rows@.len(),
                self.wf(),
                v == self.view().rows,
                n == pool_used_except(v.take(i as int), class, id, dir, m@, k@),
            decreases self.rows@.len() - i,
        {
            let r = &self.rows[i];
            proof {
                let t = v.take(i as int + 1);
                assert(t.drop_last() =~= v.take(i as int));
                assert(t.last() == rewrite_row(self.rows@[i as int]));
                assert forall|j: int| 0 <= j < t.len() implies #[trigger] t[j].payload.len() <= MAX_PAYLOAD by {
                    assert(t[j] == rewrite_row(self.rows@[j]));
                }
                lemma_pool_used_bound(t, class, id, dir, m@, k@);
            }
            let keyed = r.class == class && r.id == id && r.dir == dir && bytes_eq(&r.match_bytes, m)
                && bytes_eq(&r.mask, k);
            if !keyed {
                n = n + r.payload.len();
            }
            i = i + 1;
        }
        assert(v.take(v.len() as int) =~= v);
        n
    }

    /// Whether the box takes this action on this class with a payload of `plen` bytes.
    fn admissible(class: u8, action: u8, offset: u16, plen: usize) -> (r: bool)
        ensures
            r == rewrite_admissible(class, action, offset, plen as int),
    {
        let ctl = class == CATCH_CLS_CONTROL;
        let any = class == CATCH_CLS_ANY;
        let head: usize = if ctl { REWRITE_HEAD_CONTROL } else { REWRITE_HEAD_REPORT };
        let fits = if action == 1 || action == 7 {
            (offset as usize) <= head && plen <= head - offset as usize
        } else if action == 2 {
            plen <= head
        } else if action == 4 || action == 8 {
            plen <= REWRITE_HEAD_CONTROL
        } else {
            true
        };
        fits && if action <= 2 {
            true
        } else if action == 3 {
            !ctl && !any
        } else if action <= 8 {
            ctl
        } else {
            false
        }
    }

    /// A `REWRITE` frame's payload; see [`rewrite_frame_spec`]. `allowed` is the imperfect-clone
    /// opt-in.
    pub fn apply_frame(&mut self, p: &Vec<u8>, allowed: bool)
        requires
            old(self).wf(),
        ensures
            final(self).wf(),
            final(self).view() == rewrite_frame_spec(old(self).view(), p@, allowed),
    {
        let ghost t0 = self.view();
        if p.len() < 9 {
            return;
        }
        let mlen = p[8] as usize;
        if p.len() < 9 + 2 * mlen || p.len() > MAX_PAYLOAD - 2 {
            return;
        }
        let cls = p[0];
        let id = (p[1] as u16) + (p[2] as u16) * 256;
        let dir = p[3];
        let state = p[4];
        let action = p[5];
        let offset = (p[6] as u16) + (p[7] as u16) * 256;
        let clear_all = state == 0 && cls == 0xFF && id == 0xFFFF;
        if !allowed && !clear_all {
            return;
        }
        if clear_all {
            if self.rows.len() > 0 {
                self.rows = Vec::new();
                self.generation = if self.generation == 255 { 0 } else { self.generation + 1 };
                assert(self.view().rows =~= Seq::<RewriteRow>::empty());
            }
            self.full = false;
            return;
        }
        let rewritable = cls == CATCH_CLS_HID_IN || cls == CATCH_CLS_HID_OUT || cls == CATCH_CLS_VEND_INTR
            || cls == CATCH_CLS_VEND_BULK || cls == CATCH_CLS_CONTROL || cls == CATCH_CLS_EMIT || cls == CATCH_CLS_ANY;
        if !rewritable || dir > LOCK_DIR_NEG || mlen > REWRITE_MATCH_MAX {
            return;
        }
        let m = slice_bytes(p, 9, 9 + mlen);
        let k = slice_bytes(p, 9 + mlen, 9 + 2 * mlen);
        let payload = slice_bytes(p, 9 + 2 * mlen, p.len());
        let pos = self.find(cls, id, dir, &m, &k);
        if state != 0 && !Self::admissible(cls, action, offset, payload.len()) {
            return;
        }
        if state == 0 {
            if let Some(i) = pos {
                self.rows.remove(i);
                self.generation = if self.generation == 255 { 0 } else { self.generation + 1 };
                self.full = false;
                proof {
                    assert(self.view().rows =~= t0.rows.remove(i as int));
                    assert forall|x: int| 0 <= x < self.rows@.len() implies (#[trigger] self.rows@[x]).payload@.len() <= MAX_PAYLOAD by {
                        if x < i {
                            assert(self.rows@[x] == old(self).rows@[x]);
                        } else {
                            assert(self.rows@[x] == old(self).rows@[x + 1]);
                        }
                    }
                }
            }
            return;
        }
        if let Some(i) = pos {
            if self.rows[i].action == action && self.rows[i].offset == offset && bytes_eq(&self.rows[i].payload, &payload) {
                return;
            }
        }
        let used = self.used_except(cls, id, dir, &m, &k);
        proof {
            assert forall|j: int| 0 <= j < t0.rows.len() implies #[trigger] t0.rows[j].payload.len() <= MAX_PAYLOAD by {
                assert(t0.rows[j] == rewrite_row(self.rows@[j]));
            }
            lemma_pool_used_bound(t0.rows, cls, id, dir, m@, k@);
        }
        if used + payload.len() > REWRITE_PAYLOAD_POOL || (pos.is_none() && self.rows.len() >= REWRITE_MAX_ENTRIES) {
            self.full = true;
            return;
        }
        let ghost rest = match pos {
            Some(i) => t0.rows.remove(i as int),
            None => t0.rows,
        };
        if let Some(i) = pos {
            self.rows.remove(i);
            proof {
                assert(self.view().rows =~= rest);
            }
        }
        let ghost before = self.rows@;
        proof {
            assert forall|x: int| 0 <= x < before.len() implies (#[trigger] before[x]).payload@.len() <= MAX_PAYLOAD by {
                match pos {
                    Some(i) => {
                        if x < i {
                            assert(before[x] == old(self).rows@[x]);
                        } else {
                            assert(before[x] == old(self).rows@[x + 1]);
                        }
                    },
                    None => {
                        assert(before[x] == old(self).rows@[x]);
                    },
                }
            }
        }
        self.rows.push(MockRewrite { class: cls, id, dir, action, offset, match_bytes: m, mask: k, payload, hits: 0 });
        self.generation = if self.generation == 255 { 0 } else { self.generation + 1 };
        self.full = false;
        proof {
            assert(self.view().rows =~= rest.push(
                RewriteRow {
                    class: cls,
                    id,
                    dir,
                    action,
                    offset,
                    match_bytes: p@.subrange(9, 9 + mlen),
                    mask: p@.subrange(9 + mlen as int, 9 + 2 * mlen),
                    payload: p@.subrange(9 + 2 * mlen, p@.len() as int),
                    hits: 0,
                },
            ));
            assert forall|x: int| 0 <= x < self.rows@.len() implies (#[trigger] self.rows@[x]).payload@.len() <= MAX_PAYLOAD by {
                if x < before.len() {
                    assert(self.rows@[x] == before[x]);
                }
            }
        }
    }
}


/// What the attached device offers, as the box reads it from the clone's capabilities.
#[derive(Debug, Clone, Copy)]
pub struct MockCaps {
    /// Whether a clone is up; without one no field exists.
    pub clone_up: bool,
    pub has_x: bool,
    pub has_y: bool,
    pub has_wheel: bool,
    pub has_pan: bool,
    /// Buttons the mouse declares.
    pub n_buttons: u8,
    /// Whether a keyboard collection is bound.
    pub has_keys: bool,
    /// Whether a consumer collection is bound.
    pub has_consumer: bool,
}

/// Whether a transform can take the `(op, class pair)`: never one field as both ends; a swap is
/// between axes; a remap from an axis to an axis, or from a button to a button, key or media usage.
pub open spec fn transform_pair_ok(op: u8, sc: u8, si: u16, dc: u8, di: u16) -> bool {
    if sc == dc && si == di {
        false
    } else if op == TF_SWAP {
        sc == CATCH_CLS_AXIS && dc == CATCH_CLS_AXIS
    } else if op == TF_REMAP {
        (sc == CATCH_CLS_AXIS && dc == CATCH_CLS_AXIS) || (sc == CATCH_CLS_BTN && (dc == CATCH_CLS_BTN || dc
            == CATCH_CLS_KEY || dc == CATCH_CLS_MEDIA))
    } else {
        false
    }
}

/// Whether the clone has the field `(class, id)`: an axis when its flag is set, a button under the
/// declared count and the box's ceiling, a keycode from 4 up to a byte with a keyboard bound, a
/// media usage other than 0 with a consumer collection.
pub open spec fn field_present(c: MockCaps, cls: u8, id: u16) -> bool {
    if !c.clone_up {
        false
    } else if cls == CATCH_CLS_AXIS {
        if id == 0 {
            c.has_x
        } else if id == 1 {
            c.has_y
        } else if id == 2 {
            c.has_wheel
        } else if id == 3 {
            c.has_pan
        } else {
            false
        }
    } else if cls == CATCH_CLS_BTN {
        id < c.n_buttons && id < MAX_BUTTONS
    } else if cls == CATCH_CLS_KEY {
        c.has_keys && 4 <= id <= 0xFF
    } else if cls == CATCH_CLS_MEDIA {
        c.has_consumer && id != 0
    } else {
        false
    }
}

/// The box's transform table as values.
pub struct TransformTableView {
    pub rows: Seq<StoredTransform>,
    pub full: bool,
}

/// The first transform keyed `(sclass, sid, dclass, did)`, if any.
pub open spec fn transform_row_at(rows: Seq<StoredTransform>, sc: u8, si: u16, dc: u8, di: u16) -> Option<int>
    decreases rows.len(),
{
    if rows.len() == 0 {
        None
    } else {
        match transform_row_at(rows.drop_last(), sc, si, dc, di) {
            Some(i) => Some(i),
            None => {
                let r = rows.last();
                if r.sclass == sc && r.sid == si && r.dclass == dc && r.did == di {
                    Some(rows.len() - 1)
                } else {
                    None
                }
            },
        }
    }
}

/// The transform table after a `TRANSFORM` frame with payload `p`: `op, sclass, sid (LE), dclass,
/// did (LE), state`. Dropped when short. The all-0xFF state-0 blanket clears the table; a state of
/// 0 removes the entry at its key; any other state sets it, refused whole for an op the box does
/// not know, a pair it cannot take, or a field the clone lacks. A set on a held key changes only
/// the op, in place; a new key past the table marks it full; else it joins the end.
pub open spec fn transform_frame_spec(t: TransformTableView, p: Seq<u8>, caps: MockCaps) -> TransformTableView {
    if p.len() < 8 {
        t
    } else {
        let op = p[0];
        let sc = p[1];
        let si = le_u16(p[2], p[3]);
        let dc = p[4];
        let di = le_u16(p[5], p[6]);
        let state = p[7];
        let pos = transform_row_at(t.rows, sc, si, dc, di);
        if state == 0 && sc == 0xFF && dc == 0xFF && si == 0xFFFF && di == 0xFFFF {
            TransformTableView { rows: Seq::empty(), full: false }
        } else if state == 0 {
            match pos {
                Some(i) => TransformTableView { rows: t.rows.remove(i), full: false },
                None => t,
            }
        } else if op >= TF_OP_COUNT || !transform_pair_ok(op, sc, si, dc, di) || !field_present(caps, sc, si)
            || !field_present(caps, dc, di) {
            t
        } else {
            match pos {
                Some(i) => TransformTableView { rows: t.rows.update(i, StoredTransform { op, ..t.rows[i] }), ..t },
                None => if t.rows.len() >= TRANSFORM_MAX_ENTRIES {
                    TransformTableView { full: true, ..t }
                } else {
                    TransformTableView {
                        rows: t.rows.push(StoredTransform { op, sclass: sc, sid: si, dclass: dc, did: di }),
                        ..t
                    }
                },
            }
        }
    }
}

/// A key found in a prefix is the first key of the whole table.
proof fn lemma_transform_row_at_prefix(rows: Seq<StoredTransform>, sc: u8, si: u16, dc: u8, di: u16, n: int)
    requires
        0 <= n <= rows.len(),
        transform_row_at(rows.take(n), sc, si, dc, di) is Some,
    ensures
        transform_row_at(rows, sc, si, dc, di) == transform_row_at(rows.take(n), sc, si, dc, di),
    decreases rows.len() - n,
{
    if n < rows.len() {
        assert(rows.take(n + 1).drop_last() =~= rows.take(n));
        lemma_transform_row_at_prefix(rows, sc, si, dc, di, n + 1);
    } else {
        assert(rows.take(n) =~= rows);
    }
}

/// The pair rule, computed.
fn pair_ok(op: u8, sc: u8, si: u16, dc: u8, di: u16) -> (r: bool)
    ensures
        r == transform_pair_ok(op, sc, si, dc, di),
{
    if sc == dc && si == di {
        false
    } else if op == TF_SWAP {
        sc == CATCH_CLS_AXIS && dc == CATCH_CLS_AXIS
    } else if op == TF_REMAP {
        (sc == CATCH_CLS_AXIS && dc == CATCH_CLS_AXIS) || (sc == CATCH_CLS_BTN && (dc == CATCH_CLS_BTN || dc
            == CATCH_CLS_KEY || dc == CATCH_CLS_MEDIA))
    } else {
        false
    }
}

impl MockCaps {
    /// Whether the clone has the field `(class, id)`.
    pub fn has_field(&self, cls: u8, id: u16) -> (r: bool)
        ensures
            r == field_present(*self, cls, id),
    {
        if !self.clone_up {
            false
        } else if cls == CATCH_CLS_AXIS {
            if id == 0 {
                self.has_x
            } else if id == 1 {
                self.has_y
            } else if id == 2 {
                self.has_wheel
            } else if id == 3 {
                self.has_pan
            } else {
                false
            }
        } else if cls == CATCH_CLS_BTN {
            id < self.n_buttons as u16 && id < MAX_BUTTONS as u16
        } else if cls == CATCH_CLS_KEY {
            self.has_keys && 4 <= id && id <= 0xFF
        } else if cls == CATCH_CLS_MEDIA {
            self.has_consumer && id != 0
        } else {
            false
        }
    }
}

/// The box's transform table on the fake box.
#[derive(Debug)]
pub struct MockTransforms {
    rows: Vec<StoredTransform>,
    full: bool,
}

impl MockTransforms {
    /// The table as values.
    pub closed spec fn view(&self) -> TransformTableView {
        TransformTableView { rows: self.rows@, full: self.full }
    }

    /// No transforms.
    pub fn new() -> (t: MockTransforms)
        ensures
            t.view() == (TransformTableView { rows: Seq::empty(), full: false }),
    {
        MockTransforms { rows: Vec::new(), full: false }
    }

    /// Empty the table, as a release of the session does.
    pub fn reset(&mut self)
        ensures
            final(self).view() == (TransformTableView { rows: Seq::empty(), full: false }),
    {
        self.rows = Vec::new();
        self.full = false;
    }

    /// The transforms held, in the box's order.
    pub fn rows(&self) -> (r: &Vec<StoredTransform>)
        ensures
            r@ == self.view().rows,
    {
        &self.rows
    }

    /// Whether the last refusal was for room.
    pub fn full(&self) -> (r: bool)
        ensures
            r == self.view().full,
    {
        self.full
    }

    /// The position of the transform keyed `(sclass, sid, dclass, did)`.
    fn find(&self, sc: u8, si: u16, dc: u8, di: u16) -> (r: Option<usize>)
        ensures
            r matches Some(i) ==> transform_row_at(self.view().rows, sc, si, dc, di) == Some(i as int)
                && i < self.rows@.len(),
            r is None ==> transform_row_at(self.view().rows, sc, si, dc, di) is None,
    {
        let ghost v = self.rows@;
        let mut i: usize = 0;
        while i < self.rows.len()
            invariant
                i <= self.rows@.len(),
                v == self.rows@,
                transform_row_at(v.take(i as int), sc, si, dc, di) is None,
            decreases self.rows@.len() - i,
        {
            let r = self.rows[i];
            assert(v.take(i as int + 1).drop_last() =~= v.take(i as int));
            assert(v.take(i as int + 1).last() == r);
            if r.sclass == sc && r.sid == si && r.dclass == dc && r.did == di {
                proof {
                    lemma_transform_row_at_prefix(v, sc, si, dc, di, i as int + 1);
                }
                return Some(i);
            }
            i = i + 1;
        }
        assert(v.take(v.len() as int) =~= v);
        None
    }

    /// A `TRANSFORM` frame's payload; see [`transform_frame_spec`].
    pub fn apply_frame(&mut self, p: &Vec<u8>, caps: &MockCaps)
        ensures
            final(self).view() == transform_frame_spec(old(self).view(), p@, *caps),
    {
        if p.len() < 8 {
            return;
        }
        let op = p[0];
        let sc = p[1];
        let si = (p[2] as u16) + (p[3] as u16) * 256;
        let dc = p[4];
        let di = (p[5] as u16) + (p[6] as u16) * 256;
        let state = p[7];
        if state == 0 && sc == 0xFF && dc == 0xFF && si == 0xFFFF && di == 0xFFFF {
            self.rows = Vec::new();
            self.full = false;
            assert(self.view().rows =~= Seq::<StoredTransform>::empty());
            return;
        }
        let pos = self.find(sc, si, dc, di);
        if state == 0 {
            if let Some(i) = pos {
                self.rows.remove(i);
                self.full = false;
            }
            return;
        }
        if op >= TF_OP_COUNT || !pair_ok(op, sc, si, dc, di) || !caps.has_field(sc, si) || !caps.has_field(dc, di) {
            return;
        }
        match pos {
            Some(i) => {
                let r = self.rows[i];
                self.rows.set(i, StoredTransform { op, ..r });
            },
            None => {
                if self.rows.len() >= TRANSFORM_MAX_ENTRIES {
                    self.full = true;
                    return;
                }
                self.rows.push(StoredTransform { op, sclass: sc, sid: si, dclass: dc, did: di });
            },
        }
    }
}


/// A lock table locking nothing.
pub open spec fn lock_table_default() -> LockTableView {
    LockTableView {
        mouse: Seq::new(LOCK_TGT_COUNT as nat, |i: int| pass_row()),
        key_blanket_press: false,
        key_blanket_release: false,
        key_press: Seq::new(KEY_USAGES as nat, |i: int| false),
        key_release: Seq::new(KEY_USAGES as nat, |i: int| false),
        media: Seq::new(MEDIA_LOCK_MAX as nat, |i: int| 0u16),
        media_blanket: false,
    }
}

/// The fake box's session state as values.
pub struct MockSessionView {
    pub locks: LockTableView,
    pub rewrites: RewriteTableView,
    pub transforms: TransformTableView,
    pub packets: Seq<PacketRow>,
    /// Whether imperfect clones are allowed.
    pub imperfect: bool,
    /// The session counter, which moves on each release of host-set state.
    pub session: u16,
    /// Whether a command that could set something came since the last release.
    pub session_dirty: bool,
    /// What the clone offers.
    pub caps: MockCaps,
    /// Whether the clone is to be presented again.
    pub represent_pending: bool,
}

/// One more, wrapping past the top.
pub open spec fn wrap_inc(n: u16) -> u16 {
    if n == u16::MAX {
        0
    } else {
        (n + 1) as u16
    }
}

/// The session released, as stopping or the safety clear does and as a replug of the device: the
/// locks, rewrite rules, transforms and packet triggers go, the rewrite generation with them.
pub open spec fn released(v: MockSessionView) -> MockSessionView {
    MockSessionView {
        locks: lock_table_default(),
        rewrites: RewriteTableView { rows: Seq::empty(), generation: 0, full: false },
        transforms: TransformTableView { rows: Seq::empty(), full: false },
        packets: Seq::empty(),
        ..v
    }
}

/// A release counted: the counter moves only when a command came since the last one.
pub open spec fn counted(v: MockSessionView) -> MockSessionView {
    MockSessionView {
        session: if v.session_dirty { wrap_inc(v.session) } else { v.session },
        session_dirty: false,
        ..v
    }
}

/// The imperfect-clone option set to `allow`: turning it off drops the consuming packet triggers
/// and empties the rewrite table, counting a release when the option changed and something went; a
/// change either way re-presents the clone.
pub open spec fn imperfect_option_spec(v: MockSessionView, allow: u8) -> MockSessionView {
    let on = allow != 0;
    let changed = v.imperfect != on;
    let represent = v.represent_pending || changed;
    if on {
        MockSessionView { imperfect: true, represent_pending: represent, ..v }
    } else {
        let packets = select(v.packets, not_consuming());
        let dropped = v.rewrites.rows.len() > 0 || packets.len() != v.packets.len();
        MockSessionView {
            imperfect: false,
            packets,
            rewrites: RewriteTableView { rows: Seq::empty(), generation: 0, full: false },
            session: if changed && dropped { wrap_inc(v.session) } else { v.session },
            represent_pending: represent,
            ..v
        }
    }
}

/// The fake box's session: its tables, the imperfect-clone opt-in, the session counter and what
/// the clone offers.
#[derive(Debug)]
pub struct MockSession {
    locks: MockLockTable,
    rewrites: MockRewrites,
    transforms: MockTransforms,
    packets: MockPacketTriggers,
    imperfect: bool,
    session: u16,
    session_dirty: bool,
    caps: MockCaps,
    represent_pending: bool,
}

impl MockSession {
    /// The session as values.
    pub closed spec fn view(&self) -> MockSessionView {
        MockSessionView {
            locks: self.locks.view(),
            rewrites: self.rewrites.view(),
            transforms: self.transforms.view(),
            packets: self.packets.view(),
            imperfect: self.imperfect,
            session: self.session,
            session_dirty: self.session_dirty,
            caps: self.caps,
            represent_pending: self.represent_pending,
        }
    }

    /// The tables' shapes.
    pub closed spec fn wf(&self) -> bool {
        self.locks.wf() && self.rewrites.wf() && self.packets.wf()
    }

    /// A session holding nothing, on a clone offering `caps`.
    pub fn new(caps: MockCaps) -> (s: MockSession)
        ensures
            s.wf(),
            s.view() == (MockSessionView {
                locks: lock_table_default(),
                rewrites: RewriteTableView { rows: Seq::empty(), generation: 0, full: false },
                transforms: TransformTableView { rows: Seq::empty(), full: false },
                packets: Seq::empty(),
                imperfect: false,
                session: 0,
                session_dirty: false,
                caps,
                represent_pending: false,
            }),
    {
        MockSession {
            locks: MockLockTable::new(),
            rewrites: MockRewrites::new(),
            transforms: MockTransforms::new(),
            packets: MockPacketTriggers::new(),
            imperfect: false,
            session: 0,
            session_dirty: false,
            caps,
            represent_pending: false,
        }
    }

    /// The lock table.
    pub fn locks(&self) -> (t: &MockLockTable)
        ensures
            t.view() == self.view().locks,
    {
        &self.locks
    }

    /// The rewrite table.
    pub fn rewrites(&self) -> (t: &MockRewrites)
        ensures
            t.view() == self.view().rewrites,
    {
        &self.rewrites
    }

    /// The transform table.
    pub fn transforms(&self) -> (t: &MockTransforms)
        ensures
            t.view() == self.view().transforms,
    {
        &self.transforms
    }

    /// The packet triggers.
    pub fn packets(&self) -> (t: &MockPacketTriggers)
        ensures
            t.view() == self.view().packets,
    {
        &self.packets
    }

    /// The session counter.
    pub fn session(&self) -> (n: u16)
        ensures
            n == self.view().session,
    {
        self.session
    }

    /// Whether the opt-in is on.
    pub fn imperfect(&self) -> (b: bool)
        ensures
            b == self.view().imperfect,
    {
        self.imperfect
    }

    /// Whether the clone is to be presented again.
    pub fn represent_pending(&self) -> (b: bool)
        ensures
            b == self.view().represent_pending,
    {
        self.represent_pending
    }

    /// A command that could set something arrived: the next release counts.
    pub fn note_command(&mut self)
        ensures
            final(self).wf() == old(self).wf(),
            final(self).view() == (MockSessionView { session_dirty: true, ..old(self).view() }),
    {
        self.session_dirty = true;
    }

    /// Release the session; see [`released`].
    pub fn release_session(&mut self)
        ensures
            final(self).wf(),
            final(self).view() == released(old(self).view()),
    {
        self.locks = MockLockTable::new();
        self.rewrites.reset();
        self.transforms.reset();
        self.packets.clear();
    }

    /// The clone torn down after a detach's grace: the release counted, the session released, the
    /// clone gone.
    pub fn tear_down(&mut self)
        ensures
            final(self).wf(),
            final(self).view() == (MockSessionView {
                caps: MockCaps { clone_up: false, ..old(self).view().caps },
                ..released(counted(old(self).view()))
            }),
    {
        if self.session_dirty {
            self.session = if self.session == u16::MAX { 0 } else { self.session + 1 };
        }
        self.session_dirty = false;
        self.release_session();
        self.caps.clone_up = false;
    }

    /// A device-chip boot: the session goes, the session counter restarts at zero with nothing to
    /// count, and the clone is down until the box clones the device again.
    pub fn restart(&mut self)
        ensures
            final(self).wf(),
            final(self).view() == (MockSessionView {
                session: 0,
                session_dirty: false,
                caps: MockCaps { clone_up: false, ..old(self).view().caps },
                represent_pending: false,
                ..released(old(self).view())
            }),
    {
        self.release_session();
        self.session = 0;
        self.session_dirty = false;
        self.caps.clone_up = false;
        self.represent_pending = false;
    }

    /// The imperfect-clone option; see [`imperfect_option_spec`].
    pub fn apply_imperfect_option(&mut self, allow: u8)
        requires
            old(self).wf(),
        ensures
            final(self).wf(),
            final(self).view() == imperfect_option_spec(old(self).view(), allow),
    {
        let on = allow != 0;
        let changed = self.imperfect != on;
        self.imperfect = on;
        if !on {
            let held = self.packets.len();
            self.packets.drop_consuming();
            let rules = self.rewrites.rows();
            assert(rules@.map_values(|x: MockRewrite| rewrite_row(x)).len() == rules@.len());
            let dropped = rules.len() > 0 || self.packets.len() != held;
            self.rewrites.reset();
            if changed && dropped {
                self.session = if self.session == u16::MAX { 0 } else { self.session + 1 };
            }
        }
        if changed {
            self.represent_pending = true;
        }
    }

    /// A `LOCK` frame; applied when a clone is up, on its declared buttons.
    pub fn apply_lock_frame(&mut self, p: &Vec<u8>)
        requires
            old(self).wf(),
        ensures
            final(self).wf(),
            p@.len() < 6 || !old(self).view().caps.clone_up ==> final(self).view() == old(self).view(),
            p@.len() >= 6 && old(self).view().caps.clone_up ==> final(self).view() == (MockSessionView {
                locks: lock_apply_spec(
                    old(self).view().locks,
                    p@[0],
                    le_u16(p@[1], p@[2]),
                    p@[3],
                    le_u16(p@[4], p@[5]) as i16,
                    old(self).view().caps.n_buttons,
                ),
                ..old(self).view()
            }),
    {
        let up = self.caps.clone_up;
        let n = self.caps.n_buttons;
        self.locks.apply_frame(p, up, n);
    }

    /// A `REWRITE` frame, under the session's opt-in.
    pub fn apply_rewrite_frame(&mut self, p: &Vec<u8>)
        requires
            old(self).wf(),
        ensures
            final(self).wf(),
            final(self).view() == (MockSessionView {
                rewrites: rewrite_frame_spec(old(self).view().rewrites, p@, old(self).view().imperfect),
                ..old(self).view()
            }),
    {
        let allowed = self.imperfect;
        self.rewrites.apply_frame(p, allowed);
    }

    /// A `TRANSFORM` frame, against the clone's fields.
    pub fn apply_transform_frame(&mut self, p: &Vec<u8>)
        requires
            old(self).wf(),
        ensures
            final(self).wf(),
            final(self).view() == (MockSessionView {
                transforms: transform_frame_spec(old(self).view().transforms, p@, old(self).view().caps),
                ..old(self).view()
            }),
    {
        let caps = self.caps;
        self.transforms.apply_frame(p, &caps);
    }

    /// A `CLIP_TRIGGER` frame, under the session's opt-in; returns whether it was the clear-all.
    pub fn apply_clip_trigger_frame(&mut self, p: &Vec<u8>) -> (clear_all: bool)
        requires
            old(self).wf(),
        ensures
            final(self).wf(),
            ({
                let (rows, c) = clip_trigger_frame_spec(old(self).view().packets, p@, old(self).view().imperfect);
                clear_all == c && final(self).view() == (MockSessionView { packets: rows, ..old(self).view() })
            }),
    {
        let imperfect = self.imperfect;
        self.packets.apply_trigger_frame(p, imperfect)
    }
}

/// A key lock writes the edge bits it names: `Both` or the negative sign sets the release bit of
/// usage `id % 256` (from usage 4 up) to whether the scale blocks, `Both` or the positive sign the
/// press bit; every other key bit, the blanket bits, the axes, the buttons and the media list stay
/// as they were. A reversing (negative) scale on a key changes nothing.
pub proof fn lemma_key_lock_edges(t: LockTableView, id: u16, dir: u8, scale: i16, n: u8, v: int)
    requires
        t.key_press.len() == KEY_USAGES,
        t.key_release.len() == KEY_USAGES,
        id != LOCK_ID_ALL,
        id % 256 >= 4,
        0 <= v < KEY_USAGES,
    ensures
        scale < 0 ==> lock_apply_spec(t, LOCK_CLS_KEY, id, dir, scale, n) == t,
        scale >= 0 ==> ({
            let r = lock_apply_spec(t, LOCK_CLS_KEY, id, dir, scale, n);
            let u = (id % 256) as int;
            &&& r.key_release[u] == (if dir == LOCK_DIR_BOTH || dir == LOCK_DIR_NEG {
                scale < LOCK_SCALE_PASS
            } else {
                t.key_release[u]
            })
            &&& r.key_press[u] == (if dir == LOCK_DIR_BOTH || dir == LOCK_DIR_POS {
                scale < LOCK_SCALE_PASS
            } else {
                t.key_press[u]
            })
            &&& v != u ==> r.key_release[v] == t.key_release[v] && r.key_press[v] == t.key_press[v]
            &&& r.key_press.len() == KEY_USAGES && r.key_release.len() == KEY_USAGES
            &&& r.mouse == t.mouse && r.media == t.media && r.media_blanket == t.media_blanket
            &&& r.key_blanket_press == t.key_blanket_press && r.key_blanket_release == t.key_blanket_release
        }),
{
}

/// Axis and button locks write the slots they name: an axis `0..=3` takes the lock on its own row
/// at the scale given (reversing included); a declared button (below the declared count and the
/// box's ceiling) takes it at block or pass, except that a bearing-relative direction leaves a
/// button as it is; every other row stays; a button lock with a reversing scale changes nothing.
pub proof fn lemma_target_lock_rows(t: LockTableView, id: u16, dir: u8, scale: i16, n: u8, x: int)
    requires
        t.mouse.len() == LOCK_TGT_COUNT,
        0 <= x < LOCK_TGT_COUNT,
    ensures
        id <= LOCK_AXIS_PAN ==> ({
            let r = lock_apply_spec(t, LOCK_CLS_AXIS, id, dir, scale, n).mouse;
            &&& r[id as int] == slots_write(t.mouse[id as int], dir, scale)
            &&& x != id ==> r[x] == t.mouse[x]
        }),
        scale < 0 ==> lock_apply_spec(t, LOCK_CLS_BTN, id, dir, scale, n) == t,
        scale >= 0 && id < n && id < MAX_BUTTONS ==> ({
            let r = lock_apply_spec(t, LOCK_CLS_BTN, id, dir, scale, n).mouse;
            let b = LOCK_TGT_BTN_BASE + id;
            &&& r[b] == (if dir == LOCK_DIR_WITH || dir == LOCK_DIR_AGAINST {
                t.mouse[b]
            } else {
                slots_write(t.mouse[b], dir, if scale < LOCK_SCALE_PASS { LOCK_SCALE_BLOCK } else { LOCK_SCALE_PASS })
            })
            &&& x != b ==> r[x] == t.mouse[x]
        }),
        scale >= 0 && id != LOCK_ID_ALL && (id >= n || id >= MAX_BUTTONS) ==> lock_apply_spec(
            t,
            LOCK_CLS_BTN,
            id,
            dir,
            scale,
            n,
        ) == t,
{
}

/// A granular media lock: a blocking lock leaves the usage held when it was held or a slot was
/// free, and an unblocking one leaves it nowhere in the list; no other usage is dropped by a lock.
pub proof fn lemma_media_lock(t: LockTableView, id: u16, dir: u8, scale: i16, n: u8, y: u16)
    requires
        id != 0,
        id != LOCK_ID_ALL,
        0 <= scale,
    ensures
        ({
            let m = lock_apply_spec(t, LOCK_CLS_MEDIA, id, dir, scale, n).media;
            &&& scale < LOCK_SCALE_PASS && (t.media.contains(id) || t.media.contains(0u16)) ==> m.contains(id)
            &&& scale >= LOCK_SCALE_PASS ==> !m.contains(id)
            &&& scale < LOCK_SCALE_PASS && y != 0 && t.media.contains(y) ==> m.contains(y)
            &&& m.len() == t.media.len()
        }),
{
    let m = lock_apply_spec(t, LOCK_CLS_MEDIA, id, dir, scale, n).media;
    if scale >= LOCK_SCALE_PASS {
        if m.contains(id) {
            let i = choose|i: int| 0 <= i < m.len() && m[i] == id;
            assert(m[i] == (if t.media[i] == id { 0u16 } else { t.media[i] }));
        }
    } else if !t.media.contains(id) {
        lemma_first_free_some(t.media);
        match first_free(t.media) {
            Some(i) => {
                assert(m[i] == id);
                if t.media.contains(y) && y != 0 {
                    let j = choose|j: int| 0 <= j < t.media.len() && t.media[j] == y;
                    assert(j != i);
                    assert(m[j] == y);
                }
            },
            None => {},
        }
    }
}

/// A free slot is found whenever the list has one, at a free slot.
proof fn lemma_first_free_some(media: Seq<u16>)
    ensures
        media.contains(0u16) ==> first_free(media) is Some,
        first_free(media) matches Some(i) ==> 0 <= i < media.len() && media[i] == 0,
    decreases media.len(),
{
    if media.len() > 0 {
        let d = media.drop_last();
        lemma_first_free_some(d);
        if media.contains(0u16) {
            let j = choose|j: int| 0 <= j < media.len() && media[j] == 0;
            if j < d.len() {
                assert(d[j] == 0);
            }
        }
        if let Some(i) = first_free(d) {
            assert(media[i] == d[i]);
        }
    }
}

} // verus!
