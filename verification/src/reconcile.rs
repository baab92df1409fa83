//! The state a program holds on the box (overrides, locks, the catch table, rewrite rules,
//! transforms, clip configuration), kept host-side so a reconnect or a keepalive re-asserts it.
//!
//! Every change that a frame carries is recorded before the frame goes out and returns what it
//! overwrote, so that a frame that never reached the transport is rolled back exactly.

use crate::catch::{CatchFilter, FilterSet};
use crate::clip::{
    blanket_scope, clip_trigger_key, packet_key_fn, packet_key_of, packet_view, ring_holds,
    ring_holds_spec, scope_spec, trigger_key, ClipPacketTrigger, ClipSettings, ClipStatus,
    ClipTrigger, PacketTriggerSpec,
};
use crate::keyed::KeyedRows;
use crate::lockrow::{
    key_class, key_id, lemma_key_parts, lemma_row_key, make_row_key, override_action, override_of, pass_row,
    row_key, slots_clear, slots_commands, slots_write, split_row_key, Override, Slots,
};
use crate::opcode::{
    CLIP_SET_COUNT, BTN_COUNT, LOCK_CLS_AXIS, LOCK_CLS_BTN, LOCK_CLS_MEDIA, LOCK_ID_ALL, LOCK_SCALE_BLOCK,
    LOCK_SCALE_PASS, MAX_BUTTONS,
};
use crate::rules::{
    first_at, lemma_first_at_prefix, select, drop_key, has_key, key_at, lemma_key_at, lemma_remove_put_back, lemma_rewrite_apply_put_back,
    lemma_transform_apply_put_back, lemma_transform_remove_put_back, prior_at, put_back,
    remove_key, rewrite_apply, rewrites_applied, transforms_applied, lemma_rewrites_reapplied,
    lemma_transforms_reapplied, rewrite_key_fn, rewrite_key_of, rewrite_key_view, rewrite_view,
    transform_apply, transform_key_fn, transform_key_of, transform_put_back, unique_keys,
    RewriteKey, RewriteKeySpec, RewriteSpec, StoredRewrite, StoredTransform, TransformKey,
};
use crate::types::{class_byte, class_of_byte, Action, Class, Usage};
use vstd::prelude::*;

verus! {

/// The key of the button blanket row.
pub open spec fn button_blanket_key() -> u64 {
    row_key(LOCK_CLS_BTN, LOCK_ID_ALL)
}

/// Lowest key of a single-button row.
pub const BUTTON_ROWS_LO: u64 = 0x10000;
/// One past the highest key of a single-button row; the button blanket's key.
pub const BUTTON_ROWS_HI: u64 = 0x1FFFF;

/// Whether a key is a single-button row (not the blanket).
pub open spec fn is_button_row(k: u64) -> bool {
    BUTTON_ROWS_LO <= k < BUTTON_ROWS_HI
}

/// A granular media lock: the only class the box holds in a slot array. Its blanket is a flag.
pub open spec fn is_media_slot(class: u8, id: u16) -> bool {
    class == LOCK_CLS_MEDIA && id != LOCK_ID_ALL
}

/// The scale a lock table stores: an axis keeps its scale; a momentary usage carries one bit, so a
/// scale under a full pass blocks and any other passes.
pub open spec fn norm_scale(class: u8, scale: i16) -> i16 {
    if class == LOCK_CLS_AXIS {
        scale
    } else if scale < LOCK_SCALE_PASS {
        LOCK_SCALE_BLOCK
    } else {
        LOCK_SCALE_PASS
    }
}

/// The value under `k`, if any.
pub open spec fn get_opt<V>(m: Map<u64, V>, k: u64) -> Option<V> {
    if m.dom().contains(k) {
        Some(m[k])
    } else {
        None
    }
}

/// The row under `k`, or a clear row.
pub open spec fn row_or_pass(m: Map<u64, Slots>, k: u64) -> Slots {
    if m.dom().contains(k) {
        m[k]
    } else {
        pass_row()
    }
}

/// A lock written onto the row under `k`; a row left clear is dropped.
pub open spec fn write_row_map(m: Map<u64, Slots>, k: u64, dir: u8, scale: i16) -> Map<u64, Slots> {
    let r = slots_write(row_or_pass(m, k), dir, scale);
    if slots_clear(r) {
        m.remove(k)
    } else {
        m.insert(k, r)
    }
}

/// The rows with every single-button row dropped.
pub open spec fn without_button_rows(m: Map<u64, Slots>) -> Map<u64, Slots> {
    Map::new(|k: u64| m.dom().contains(k) && !is_button_row(k), |k: u64| m[k])
}

/// The rows with the button blanket expanded onto the first `n` buttons that hold no row of their
/// own, the blanket row kept.
pub open spec fn burst_partial(m: Map<u64, Slots>, blanket: Slots, n: int) -> Map<u64, Slots> {
    Map::new(
        |k: u64| m.dom().contains(k) || (BUTTON_ROWS_LO <= k < BUTTON_ROWS_LO + n),
        |k: u64|
            if m.dom().contains(k) {
                m[k]
            } else {
                blanket
            },
    )
}

/// The rows with a held button blanket expanded onto `count` buttons and the blanket row dropped.
pub open spec fn burst_rows(m: Map<u64, Slots>, count: u16) -> Map<u64, Slots> {
    if m.dom().contains(button_blanket_key()) {
        burst_partial(m, m[button_blanket_key()], count as int).remove(button_blanket_key())
    } else {
        m
    }
}

/// The lock table after a lock of `(class, id, dir)` at `scale`: a button blanket replaces every
/// single-button row; a single button under a held blanket first expands it onto the declared
/// buttons; any other lock writes its own row.
pub open spec fn locks_after(
    m: Map<u64, Slots>,
    count: u16,
    class: u8,
    id: u16,
    dir: u8,
    scale: i16,
) -> Map<u64, Slots> {
    let sc = norm_scale(class, scale);
    let k = row_key(class, id);
    if class == LOCK_CLS_BTN && id == LOCK_ID_ALL {
        write_row_map(without_button_rows(m), k, dir, sc)
    } else if class == LOCK_CLS_BTN && m.dom().contains(button_blanket_key()) {
        write_row_map(burst_rows(m, count), k, dir, sc)
    } else {
        write_row_map(m, k, dir, sc)
    }
}

/// Every id but `id`.
pub open spec fn not_id(id: u16) -> spec_fn(u16) -> bool {
    |y: u16| y != id
}

/// The media slot order after a lock: a granular media row that clears leaves the order, one newly
/// held joins its end, and any other lock leaves it as it is.
pub open spec fn media_after(
    order: Seq<u16>,
    m: Map<u64, Slots>,
    class: u8,
    id: u16,
    dir: u8,
    scale: i16,
) -> Seq<u16> {
    if !is_media_slot(class, id) {
        order
    } else if slots_clear(slots_write(row_or_pass(m, row_key(class, id)), dir, norm_scale(class, scale))) {
        order.filter(not_id(id))
    } else if order.contains(id) {
        order
    } else {
        order.push(id)
    }
}

/// A row key put back to what an undo entry recorded.
pub open spec fn put_row(m: Map<u64, Slots>, e: (u64, Option<Slots>)) -> Map<u64, Slots> {
    match e.1 {
        Some(r) => m.insert(e.0, r),
        None => m.remove(e.0),
    }
}

/// The rows an undo record rewinds to: its entries put back newest first.
pub open spec fn lock_rewind(m: Map<u64, Slots>, rows: Seq<(u64, Option<Slots>)>) -> Map<
    u64,
    Slots,
>
    decreases rows.len(),
{
    if rows.len() == 0 {
        m
    } else {
        lock_rewind(put_row(m, rows.last()), rows.drop_last())
    }
}

/// Whether every key is a `(class, id)` row key.
pub open spec fn keys_fit<V>(m: Map<u64, V>) -> bool {
    forall|k: u64| #[trigger] m.dom().contains(k) ==> k < 0x1000000
}

/// Whether the media order lists each held granular media row once, and nothing else.
pub open spec fn media_consistent(m: Map<u64, Slots>, order: Seq<u16>) -> bool {
    &&& order.no_duplicates()
    &&& forall|x: u16| #[trigger]
        order.contains(x) ==> x != LOCK_ID_ALL && m.dom().contains(row_key(LOCK_CLS_MEDIA, x))
    &&& forall|k: u64|
        #[trigger] m.dom().contains(k) && key_class(k) == LOCK_CLS_MEDIA && key_id(k) != LOCK_ID_ALL
            ==> order.contains(key_id(k) as u16)
}

/// A lock table the host can hold: row keys, and a media order that matches it.
pub open spec fn lock_table_ok(m: Map<u64, Slots>, order: Seq<u16>) -> bool {
    keys_fit(m) && media_consistent(m, order)
}

/// One held override re-asserted: its usage and action, if it is one (a class the usage types
/// name, an override that is not idle).
pub open spec fn held_entry(r: (u64, Override)) -> Option<(Usage, Action)> {
    match override_action(r.1) {
        None => None,
        Some(a) => match class_of_byte(key_class(r.0) as u8) {
            None => None,
            Some(c) => Some((Usage { class: c, id: key_id(r.0) as u16 }, a)),
        },
    }
}

/// Every held override re-asserted, in key order.
pub open spec fn held_of(rows: Seq<(u64, Override)>) -> Seq<(Usage, Action)> {
    rows.filter_map(|r: (u64, Override)| held_entry(r))
}

/// A lock key on the wire: class, id, direction.
pub type LockKey = (u8, u16, u8);

/// The commands of one row, addressed to `(class, id)`.
pub open spec fn row_commands(class: u8, id: u16, cmds: Seq<(u8, i16)>) -> Seq<(LockKey, i16)> {
    cmds.map_values(|c: (u8, i16)| ((class, id, c.0), c.1))
}

/// The commands that rebuild one held row; a button blanket widens onto `count` buttons.
pub open spec fn expand_row(r: (u64, Slots), count: u16) -> Seq<(LockKey, i16)> {
    let class = key_class(r.0) as u8;
    let id = key_id(r.0) as u16;
    if class == LOCK_CLS_BTN && id == LOCK_ID_ALL {
        Seq::new(count as nat, |b: int| row_commands(class, b as u16, slots_commands(r.1))).flatten()
    } else {
        row_commands(class, id, slots_commands(r.1))
    }
}

/// The commands that rebuild rows, in order.
pub open spec fn expand_rows(rows: Seq<(u64, Slots)>, count: u16) -> Seq<(LockKey, i16)> {
    rows.map_values(|r: (u64, Slots)| expand_row(r, count)).flatten()
}

/// Whether a row's class sorts before media.
pub open spec fn below_media(r: (u64, Slots)) -> bool {
    key_class(r.0) < LOCK_CLS_MEDIA
}

/// Whether a row's class sorts after media.
pub open spec fn above_media(r: (u64, Slots)) -> bool {
    key_class(r.0) > LOCK_CLS_MEDIA
}

/// The media rows in the order they were taken.
pub open spec fn media_rows(m: Map<u64, Slots>, order: Seq<u16>) -> Seq<(u64, Slots)> {
    order.map_values(|id: u16| (row_key(LOCK_CLS_MEDIA, id), m[row_key(LOCK_CLS_MEDIA, id)]))
}

/// The media blanket row, if held.
pub open spec fn media_blanket_row(m: Map<u64, Slots>) -> Seq<(u64, Slots)> {
    let k = row_key(LOCK_CLS_MEDIA, LOCK_ID_ALL);
    if m.dom().contains(k) {
        seq![(k, m[k])]
    } else {
        Seq::empty()
    }
}

/// The held rows in re-assert order: by class; within media, granular rows in the order they were
/// taken, then the blanket; within any other class, by id.
pub open spec fn reassert_rows(rows: Seq<(u64, Slots)>, m: Map<u64, Slots>, order: Seq<u16>) -> Seq<
    (u64, Slots),
> {
    rows.filter(|r: (u64, Slots)| below_media(r)) + media_rows(m, order) + media_blanket_row(m)
        + rows.filter(|r: (u64, Slots)| above_media(r))
}

/// What a lock change overwrote, to restore when its frame never went out.
#[derive(Debug)]
pub struct LockUndo {
    rows: Vec<(u64, Option<Slots>)>,
    media_order: Vec<u16>,
}

impl LockUndo {
    /// Each row touched, with what it held before, oldest first.
    pub closed spec fn rows(&self) -> Seq<(u64, Option<Slots>)> {
        self.rows@
    }

    /// The media order before the change.
    pub closed spec fn media_order(&self) -> Seq<u16> {
        self.media_order@
    }
}

/// Putting back the row an entry recorded undoes a change made at that row alone.
proof fn lemma_rewind_step(
    m: Map<u64, Slots>,
    m2: Map<u64, Slots>,
    rows: Seq<(u64, Option<Slots>)>,
    k: u64,
)
    requires
        forall|j: u64| j != k ==> (#[trigger] m2.dom().contains(j) == m.dom().contains(j)),
        forall|j: u64| j != k && m.dom().contains(j) ==> #[trigger] m2[j] == m[j],
    ensures
        lock_rewind(m2, rows.push((k, get_opt(m, k)))) == lock_rewind(m, rows),
{
    let e = (k, get_opt(m, k));
    assert(rows.push(e).drop_last() =~= rows);
    assert(put_row(m2, e) =~= m);
}

/// Whether `v` holds `x`.
fn holds_u16(v: &Vec<u16>, x: u16) -> (r: bool)
    ensures
        r == v@.contains(x),
{
    let mut i: usize = 0;
    while i < v.len()
        invariant
            i <= v@.len(),
            forall|j: int| 0 <= j < i ==> v@[j] != x,
        decreases v@.len() - i,
    {
        if v[i] == x {
            return true;
        }
        i = i + 1;
    }
    false
}

/// `v` with every `x` dropped.
fn without_u16(v: &Vec<u16>, x: u16) -> (r: Vec<u16>)
    ensures
        r@ == v@.filter(not_id(x)),
{
    let mut out: Vec<u16> = Vec::new();
    let mut i: usize = 0;
    while i < v.len()
        invariant
            i <= v@.len(),
            out@ == v@.take(i as int).filter(not_id(x)),
        decreases v@.len() - i,
    {
        proof {
            reveal(Seq::filter);
            assert(v@.take(i as int + 1).drop_last() =~= v@.take(i as int));
        }
        if v[i] != x {
            out.push(v[i]);
        }
        i = i + 1;
    }
    assert(v@.take(v@.len() as int) =~= v@);
    out
}

/// Append the commands of one row, addressed to `(class, id)`.
fn push_row_commands(out: &mut Vec<(LockKey, i16)>, class: u8, id: u16, cmds: &Vec<(u8, i16)>)
    ensures
        final(out)@ == old(out)@ + row_commands(class, id, cmds@),
{
    let mut i: usize = 0;
    while i < cmds.len()
        invariant
            i <= cmds@.len(),
            out@ == old(out)@ + row_commands(class, id, cmds@.take(i as int)),
        decreases cmds@.len() - i,
    {
        let (dir, scale) = cmds[i];
        out.push(((class, id, dir), scale));
        assert(row_commands(class, id, cmds@.take(i as int + 1)) =~= row_commands(
            class,
            id,
            cmds@.take(i as int),
        ).push(((class, id, dir), scale)));
        i = i + 1;
    }
    assert(cmds@.take(cmds@.len() as int) =~= cmds@);
}

/// Append the commands that rebuild one held row.
fn push_expanded(out: &mut Vec<(LockKey, i16)>, r: (u64, Slots), count: u16)
    requires
        r.0 < 0x1000000,
    ensures
        final(out)@ == old(out)@ + expand_row(r, count),
{
    let (class, id) = split_row_key(r.0);
    let cmds = r.1.commands();
    if class == LOCK_CLS_BTN && id == LOCK_ID_ALL {
        let ghost f = |b: int| row_commands(class, b as u16, slots_commands(r.1));
        let mut b: u16 = 0;
        while b < count
            invariant
                b <= count,
                cmds@ == slots_commands(r.1),
                f == (|b: int| row_commands(class, b as u16, slots_commands(r.1))),
                out@ == old(out)@ + Seq::new(b as nat, f).flatten(),
            decreases count - b,
        {
            push_row_commands(out, class, b, &cmds);
            proof {
                assert(Seq::new(b as nat + 1, f) =~= Seq::new(b as nat, f).push(f(b as int)));
                Seq::new(b as nat, f).lemma_flatten_push(f(b as int));
            }
            b = b + 1;
        }
        assert(out@ =~= old(out)@ + expand_row(r, count));
    } else {
        push_row_commands(out, class, id, &cmds);
    }
}

/// The clip configuration the host holds: a loaded ring, settings off their defaults, and both
/// trigger kinds.
#[derive(Debug)]
pub struct ClipHeld {
    // Appended since the last clear.
    loaded: bool,
    // Whether the ring held the clip when last known: set by an append, cleared by a clear or a
    // reading of an empty idle ring. A release loses a clip only while it is set.
    ring: bool,
    // Moved by every append and clear, so a reading taken across one is not trusted.
    ring_gen: u64,
    // The box dropped the loaded clip; the next append or clear resets it.
    lost: bool,
    // By setting id; every default is 0.
    settings: Vec<u8>,
    triggers: KeyedRows<ClipTrigger>,
    // In the box's order, which breaks ties between equally specific triggers by the earlier one.
    packet_triggers: Vec<ClipPacketTrigger>,
}

impl ClipHeld {
    /// Nothing held, every setting at its default.
    fn new() -> (c: ClipHeld)
        ensures
            !c.loaded && !c.ring && c.ring_gen == 0 && !c.lost,
            c.settings@ == seq![0u8, 0u8, 0u8, 0u8],
            c.triggers.wf(),
            c.triggers.map() == Map::<u64, ClipTrigger>::empty(),
            c.packet_triggers@.len() == 0,
    {
        let mut settings: Vec<u8> = Vec::new();
        settings.push(0);
        settings.push(0);
        settings.push(0);
        settings.push(0);
        assert(settings@ =~= seq![0u8, 0u8, 0u8, 0u8]);
        ClipHeld {
            loaded: false,
            ring: false,
            ring_gen: 0,
            lost: false,
            settings,
            triggers: KeyedRows::new(),
            packet_triggers: Vec::new(),
        }
    }
}

/// Program-owned injection and subscription state, re-asserted after a reconnect so held usages
/// and open catches survive a control-link blip.
#[derive(Debug)]
pub struct DesiredState {
    overrides: KeyedRows<Override>,
    // One row per box lock-table row; a row whose every slot passes is dropped, so this is exactly
    // what a reconnect re-sends.
    locks: KeyedRows<Slots>,
    // Granular media rows in the order they were taken.
    media_order: Vec<u16>,
    // Cached from the capability reply; a reconnect re-reads it.
    declared_buttons: Option<u8>,
    // In the box's order, which breaks ties between equally specific rules by the earlier entry.
    rewrites: Vec<StoredRewrite>,
    // In installation order, the order the box applies them in.
    transforms: Vec<StoredTransform>,
    // The catch table the box should hold, re-asserted on reconnect.
    catch: FilterSet,
    clip: ClipHeld,
}

impl DesiredState {
    /// The held overrides, by usage row key.
    pub closed spec fn overrides(&self) -> Map<u64, Override> {
        self.overrides.map()
    }

    /// The held overrides in key order.
    pub closed spec fn override_rows(&self) -> Seq<(u64, Override)> {
        self.overrides.rows()
    }

    /// The lock table, by row key.
    pub closed spec fn locks(&self) -> Map<u64, Slots> {
        self.locks.map()
    }

    /// The lock table in key order.
    pub closed spec fn lock_rows(&self) -> Seq<(u64, Slots)> {
        self.locks.rows()
    }

    /// The granular media rows in the order they were taken.
    pub closed spec fn media_order(&self) -> Seq<u16> {
        self.media_order@
    }

    /// The button count the box declared, once read.
    pub closed spec fn declared_buttons(&self) -> Option<u8> {
        self.declared_buttons
    }

    /// The button count a blanket widens onto: the declared count once read, else the five named
    /// buttons.
    pub open spec fn button_count_spec(&self) -> u16 {
        match self.declared_buttons() {
            Some(n) => n as u16,
            None => BTN_COUNT as u16,
        }
    }

    /// The record's invariant.
    pub closed spec fn wf(&self) -> bool {
        &&& self.overrides.wf()
        &&& keys_fit(self.overrides.map())
        &&& forall|k: u64| #[trigger]
            self.overrides.map().dom().contains(k) ==> self.overrides.map()[k] != Override::Idle
        &&& self.locks.wf()
        &&& lock_table_ok(self.locks.map(), self.media_order@)
        &&& self.declared_buttons matches Some(n) ==> n <= MAX_BUTTONS
        &&& unique_keys(self.rewrites(), rewrite_key_fn())
        &&& unique_keys(self.transforms@, transform_key_fn())
        &&& self.catch.wf()
        &&& self.clip.settings@.len() == CLIP_SET_COUNT
        &&& self.clip.triggers.wf()
    }

    /// The catch table the box should hold.
    pub closed spec fn catch(&self) -> Map<u64, CatchFilter> {
        self.catch.map()
    }

    /// The catch table in key order.
    pub closed spec fn catch_rows(&self) -> Seq<(u64, CatchFilter)> {
        self.catch.rows()
    }

    /// The clip configuration as held.
    pub closed spec fn clip_state(&self) -> ClipHeld {
        self.clip
    }

    /// Whether a clip was appended since the last clear (and not lost).
    pub closed spec fn clip_loaded_flag(&self) -> bool {
        self.clip.loaded
    }

    /// Whether the ring held the clip when last known.
    pub closed spec fn clip_ring(&self) -> bool {
        self.clip.ring
    }

    /// The ring generation: moved by every append and clear.
    pub closed spec fn ring_gen(&self) -> u64 {
        self.clip.ring_gen
    }

    /// Whether the box dropped the loaded clip.
    pub closed spec fn clip_lost_flag(&self) -> bool {
        self.clip.lost
    }

    /// The clip settings, by setting id; every default is 0.
    pub closed spec fn clip_settings(&self) -> Seq<u8> {
        self.clip.settings@
    }

    /// The input triggers, by `(class, id, edge)` key.
    pub closed spec fn clip_triggers(&self) -> Map<u64, ClipTrigger> {
        self.clip.triggers.map()
    }

    /// The input triggers in key order.
    pub closed spec fn clip_trigger_rows(&self) -> Seq<(u64, ClipTrigger)> {
        self.clip.triggers.rows()
    }

    /// The packet triggers, in the box's order.
    pub closed spec fn packet_triggers(&self) -> Seq<PacketTriggerSpec> {
        self.clip.packet_triggers@.map_values(|t: ClipPacketTrigger| packet_view(t))
    }

    /// Whether the clip configuration is the default: nothing loaded, nothing lost, the ring
    /// generation at zero, every setting 0, no trigger.
    pub closed spec fn clip_is_default(&self) -> bool {
        !self.clip.loaded && !self.clip.ring && self.clip.ring_gen == 0 && !self.clip.lost
            && self.clip.settings@ == seq![0u8, 0u8, 0u8, 0u8] && self.clip.triggers.map()
            == Map::<u64, ClipTrigger>::empty() && self.clip.packet_triggers@.len() == 0
    }

    /// The held rewrite rules, in the box's order.
    pub closed spec fn rewrites(&self) -> Seq<RewriteSpec> {
        self.rewrites@.map_values(|r: StoredRewrite| rewrite_view(r))
    }

    /// The held transforms, in installation order.
    pub closed spec fn transforms(&self) -> Seq<StoredTransform> {
        self.transforms@
    }

    /// Nothing held.
    pub fn new() -> (s: DesiredState)
        ensures
            s.wf(),
            s.overrides() == Map::<u64, Override>::empty(),
            s.locks() == Map::<u64, Slots>::empty(),
            s.media_order() == Seq::<u16>::empty(),
            s.declared_buttons() is None,
            s.rewrites() == Seq::<RewriteSpec>::empty(),
            s.transforms() == Seq::<StoredTransform>::empty(),
            s.catch() == Map::<u64, CatchFilter>::empty(),
            s.clip_is_default(),
    {
        DesiredState {
            overrides: KeyedRows::new(),
            locks: KeyedRows::new(),
            media_order: Vec::new(),
            declared_buttons: None,
            rewrites: Vec::new(),
            transforms: Vec::new(),
            catch: KeyedRows::new(),
            clip: ClipHeld::new(),
        }
    }

    /// Record a momentary-usage override, any class, for replay: a soft release drops it.
    pub fn apply(&mut self, usage: Usage, action: Action)
        requires
            old(self).wf(),
        ensures
            final(self).wf(),
            final(self).overrides() == (if action == Action::SoftRelease {
                old(self).overrides().remove(row_key(class_byte(usage.class), usage.id))
            } else {
                old(self).overrides().insert(
                    row_key(class_byte(usage.class), usage.id),
                    override_of(action),
                )
            }),
            final(self).locks() == old(self).locks(),
            final(self).lock_rows() == old(self).lock_rows(),
            final(self).media_order() == old(self).media_order(),
            final(self).declared_buttons() == old(self).declared_buttons(),
            final(self).rewrites() == old(self).rewrites(),
            final(self).transforms() == old(self).transforms(),
            final(self).catch() == old(self).catch(),
            final(self).catch_rows() == old(self).catch_rows(),
            final(self).clip_state() == old(self).clip_state(),
    {
        let (cls, id) = usage.class_id();
        let key = make_row_key(cls, id);
        proof {
            lemma_row_key(key, cls, id);
        }
        match Override::applied(action) {
            Override::Idle => {
                self.overrides.remove(key);
            },
            ov => {
                self.overrides.insert(key, ov);
            },
        }
    }

    /// Every held override as `(usage, action)`, in key order, for the reconnect reapply.
    pub fn held(&self) -> (v: Vec<(Usage, Action)>)
        requires
            self.wf(),
        ensures
            v@ == held_of(self.override_rows()),
    {
        let ghost rows = self.overrides.rows();
        let mut out: Vec<(Usage, Action)> = Vec::new();
        let mut i: usize = 0;
        while i < self.overrides.len()
            invariant
                self.wf(),
                rows == self.overrides.rows(),
                i <= rows.len(),
                out@ == held_of(rows.take(i as int)),
            decreases rows.len() - i,
        {
            let (k, ov) = self.overrides.row(i);
            proof {
                crate::keyed::lemma_map_of_row(rows, i as int);
                assert(rows.take(i as int + 1).drop_last() =~= rows.take(i as int));
                assert(rows.take(i as int + 1).last() == rows[i as int]);
            }
            match ov.as_action() {
                Some(a) => {
                    let (c, id) = split_row_key(k);
                    match Class::from_u8(c) {
                        Some(class) => {
                            out.push((Usage::new(class, id), a));
                            assert(out@ =~= held_of(rows.take(i as int + 1)));
                        },
                        None => {},
                    }
                },
                None => {},
            }
            i = i + 1;
        }
        assert(rows.take(rows.len() as int) =~= rows);
        out
    }

    /// Cache the declared button count from the capability reply, capped at the box's ceiling. A
    /// button blanket expands onto this many rows at reassert.
    pub fn note_declared_buttons(&mut self, n_buttons: u8)
        requires
            old(self).wf(),
        ensures
            final(self).wf(),
            final(self).declared_buttons() == Some(
                if n_buttons < MAX_BUTTONS {
                    n_buttons
                } else {
                    MAX_BUTTONS
                },
            ),
            final(self).overrides() == old(self).overrides(),
            final(self).locks() == old(self).locks(),
            final(self).lock_rows() == old(self).lock_rows(),
            final(self).media_order() == old(self).media_order(),
            final(self).rewrites() == old(self).rewrites(),
            final(self).transforms() == old(self).transforms(),
            final(self).catch() == old(self).catch(),
            final(self).catch_rows() == old(self).catch_rows(),
            final(self).clip_state() == old(self).clip_state(),
    {
        self.declared_buttons = Some(if n_buttons < MAX_BUTTONS { n_buttons } else { MAX_BUTTONS });
    }

    /// The declared button count once read, else the five named buttons.
    pub fn button_count(&self) -> (n: u16)
        ensures
            n == self.button_count_spec(),
    {
        match self.declared_buttons {
            Some(n) => n as u16,
            None => BTN_COUNT as u16,
        }
    }

    /// Write one row, recording what it held; a row left clear is dropped, and the media order
    /// follows the granular media rows.
    fn write_lock_row(&mut self, class: u8, id: u16, dir: u8, scale: i16, undo: &mut LockUndo)
        requires
            old(self).locks.wf(),
            keys_fit(old(self).locks.map()),
        ensures
            final(self).locks.wf(),
            keys_fit(final(self).locks.map()),
            final(self).locks.map() == write_row_map(
                old(self).locks.map(),
                row_key(class, id),
                dir,
                scale,
            ),
            final(self).media_order@ == (if !is_media_slot(class, id) {
                old(self).media_order@
            } else if slots_clear(
                slots_write(row_or_pass(old(self).locks.map(), row_key(class, id)), dir, scale),
            ) {
                old(self).media_order@.filter(not_id(id))
            } else if old(self).media_order@.contains(id) {
                old(self).media_order@
            } else {
                old(self).media_order@.push(id)
            }),
            final(undo).rows@ == old(undo).rows@.push(
                (row_key(class, id), get_opt(old(self).locks.map(), row_key(class, id))),
            ),
            final(undo).media_order@ == old(undo).media_order@,
            final(self).overrides == old(self).overrides,
            final(self).declared_buttons == old(self).declared_buttons,
            final(self).rewrites == old(self).rewrites,
            final(self).transforms == old(self).transforms,
            final(self).catch == old(self).catch,
            final(self).clip == old(self).clip,
    {
        let key = make_row_key(class, id);
        proof {
            lemma_row_key(key, class, id);
        }
        let prior = self.locks.get(key);
        undo.rows.push((key, prior));
        let mut row = match prior {
            Some(r) => r,
            None => Slots::default(),
        };
        row.write(dir, scale);
        if row.is_clear() {
            self.locks.remove(key);
            if class == LOCK_CLS_MEDIA && id != LOCK_ID_ALL {
                self.media_order = without_u16(&self.media_order, id);
            }
        } else {
            self.locks.insert(key, row);
            if class == LOCK_CLS_MEDIA && id != LOCK_ID_ALL && !holds_u16(&self.media_order, id) {
                self.media_order.push(id);
            }
        }
    }
}

/// Dropping one id from an order keeps the rest, and keeps it free of repeats.
proof fn lemma_filter_not_id(s: Seq<u16>, id: u16)
    ensures
        forall|x: u16| #[trigger]
            s.filter(not_id(id)).contains(x) <==> (s.contains(x) && x != id),
        s.no_duplicates() ==> s.filter(not_id(id)).no_duplicates(),
    decreases s.len(),
{
    reveal(Seq::filter);
    if s.len() > 0 {
        let d = s.drop_last();
        let e = s.last();
        lemma_filter_not_id(d, id);
        let f = d.filter(not_id(id));
        assert(s =~= d.push(e));
        assert(not_id(id)(e) == (e != id));
        assert(s.filter(not_id(id)) == if e != id {
            f.push(e)
        } else {
            f
        });
        assert forall|x: u16| s.contains(x) <==> (d.contains(x) || x == e) by {
            if s.contains(x) {
                let i = choose|i: int| 0 <= i < s.len() && s[i] == x;
                if i < d.len() {
                    assert(d[i] == x);
                }
            }
            if d.contains(x) {
                let i = choose|i: int| 0 <= i < d.len() && d[i] == x;
                assert(s[i] == x);
            }
            if x == e {
                assert(s[s.len() - 1] == x);
            }
        }
        if e != id {
            assert forall|x: u16| f.push(e).contains(x) <==> (f.contains(x) || x == e) by {
                if f.push(e).contains(x) {
                    let i = choose|i: int| 0 <= i < f.push(e).len() && f.push(e)[i] == x;
                    if i < f.len() {
                        assert(f[i] == x);
                    }
                }
                if f.contains(x) {
                    let i = choose|i: int| 0 <= i < f.len() && f[i] == x;
                    assert(f.push(e)[i] == x);
                }
                if x == e {
                    assert(f.push(e)[f.len() as int] == x);
                }
            }
            if s.no_duplicates() {
                assert(d.no_duplicates());
                assert(!d.contains(e)) by {
                    if d.contains(e) {
                        let i = choose|i: int| 0 <= i < d.len() && d[i] == e;
                        assert(s[i] == s[s.len() - 1]);
                    }
                }
                assert(!f.contains(e));
                assert forall|i: int, j: int|
                    0 <= i < f.push(e).len() && 0 <= j < f.push(e).len() && i != j implies f.push(
                    e,
                )[i] != f.push(e)[j] by {
                    if i < f.len() && j < f.len() {
                    } else if i < f.len() {
                        assert(f.contains(f[i]));
                    } else {
                        assert(f.contains(f[j]));
                    }
                }
            }
        } else {
            if s.no_duplicates() {
                assert(d.no_duplicates());
            }
        }
        assert forall|x: u16| #[trigger]
            s.filter(not_id(id)).contains(x) <==> (s.contains(x) && x != id) by {
            assert(s.contains(x) <==> (d.contains(x) || x == e));
            assert(f.contains(x) <==> (d.contains(x) && x != id));
            if e != id {
                assert(f.push(e).contains(x) <==> (f.contains(x) || x == e));
            }
        }
    } else {
        assert(s.filter(not_id(id)) =~= s);
    }
}

/// Appending an id an order lacks keeps it free of repeats.
proof fn lemma_push_new_id(s: Seq<u16>, id: u16)
    requires
        !s.contains(id),
    ensures
        forall|x: u16| #[trigger] s.push(id).contains(x) <==> (s.contains(x) || x == id),
        s.no_duplicates() ==> s.push(id).no_duplicates(),
{
    let t = s.push(id);
    assert forall|x: u16| #[trigger] t.contains(x) <==> (s.contains(x) || x == id) by {
        if t.contains(x) {
            let i = choose|i: int| 0 <= i < t.len() && t[i] == x;
            if i < s.len() {
                assert(s[i] == x);
            }
        }
        if s.contains(x) {
            let i = choose|i: int| 0 <= i < s.len() && s[i] == x;
            assert(t[i] == x);
        }
        if x == id {
            assert(t[s.len() as int] == x);
        }
    }
    if s.no_duplicates() {
        assert forall|i: int, j: int| 0 <= i < t.len() && 0 <= j < t.len() && i != j implies t[i]
            != t[j] by {
            if i < s.len() && j < s.len() {
            } else if i < s.len() {
                assert(s.contains(s[i]));
            } else {
                assert(s.contains(s[j]));
            }
        }
    }
}

/// A lock written onto one row keeps the table one the host can hold, with the media order moved
/// as the write moves it.
proof fn lemma_write_keeps_table(m: Map<u64, Slots>, order: Seq<u16>, class: u8, id: u16, dir: u8, sc: i16)
    requires
        lock_table_ok(m, order),
    ensures
        lock_table_ok(
            write_row_map(m, row_key(class, id), dir, sc),
            if !is_media_slot(class, id) {
                order
            } else if slots_clear(slots_write(row_or_pass(m, row_key(class, id)), dir, sc)) {
                order.filter(not_id(id))
            } else if order.contains(id) {
                order
            } else {
                order.push(id)
            },
        ),
{
    let k = row_key(class, id);
    let m2 = write_row_map(m, k, dir, sc);
    let r = slots_write(row_or_pass(m, k), dir, sc);
    lemma_row_key(k, class, id);
    assert forall|j: u64| #[trigger] m2.dom().contains(j) implies j < 0x1000000 by {
        if j != k {
            assert(m.dom().contains(j));
        }
    }
    if !is_media_slot(class, id) {
        assert forall|x: u16| #[trigger] order.contains(x) implies x != LOCK_ID_ALL
            && m2.dom().contains(row_key(LOCK_CLS_MEDIA, x)) by {
            lemma_row_key(k, LOCK_CLS_MEDIA, x);
            assert(m.dom().contains(row_key(LOCK_CLS_MEDIA, x)));
        }
        assert forall|j: u64|
            #[trigger] m2.dom().contains(j) && key_class(j) == LOCK_CLS_MEDIA && key_id(j)
                != LOCK_ID_ALL implies order.contains(key_id(j) as u16) by {
            lemma_row_key(j, class, id);
            assert(m.dom().contains(j));
        }
    } else if slots_clear(r) {
        let o2 = order.filter(not_id(id));
        lemma_filter_not_id(order, id);
        assert forall|x: u16| #[trigger] o2.contains(x) implies x != LOCK_ID_ALL
            && m2.dom().contains(row_key(LOCK_CLS_MEDIA, x)) by {
            lemma_row_key(row_key(LOCK_CLS_MEDIA, x), LOCK_CLS_MEDIA, id);
            assert(m.dom().contains(row_key(LOCK_CLS_MEDIA, x)));
        }
        assert forall|j: u64|
            #[trigger] m2.dom().contains(j) && key_class(j) == LOCK_CLS_MEDIA && key_id(j)
                != LOCK_ID_ALL implies o2.contains(key_id(j) as u16) by {
            lemma_row_key(j, class, id);
            assert(m.dom().contains(j));
            lemma_key_parts(j);
        }
    } else {
        let o2 = if order.contains(id) {
            order
        } else {
            order.push(id)
        };
        if !order.contains(id) {
            lemma_push_new_id(order, id);
        }
        assert forall|x: u16| #[trigger] o2.contains(x) implies x != LOCK_ID_ALL
            && m2.dom().contains(row_key(LOCK_CLS_MEDIA, x)) by {
            if x != id {
                assert(order.contains(x));
                assert(m.dom().contains(row_key(LOCK_CLS_MEDIA, x)));
            }
        }
        assert forall|j: u64|
            #[trigger] m2.dom().contains(j) && key_class(j) == LOCK_CLS_MEDIA && key_id(j)
                != LOCK_ID_ALL implies o2.contains(key_id(j) as u16) by {
            lemma_row_key(j, class, id);
            if j != k {
                assert(m.dom().contains(j));
            }
        }
    }
}

/// Keys in `lo..hi` of class 1 are no media rows, so a change confined to them leaves the media
/// order matching.
proof fn lemma_button_change_keeps_table(m: Map<u64, Slots>, m2: Map<u64, Slots>, order: Seq<u16>)
    requires
        lock_table_ok(m, order),
        forall|j: u64| #[trigger] m2.dom().contains(j) ==> j < 0x1000000,
        forall|j: u64|
            !(BUTTON_ROWS_LO <= j <= BUTTON_ROWS_HI) ==> (#[trigger] m2.dom().contains(j)
                == m.dom().contains(j)),
    ensures
        lock_table_ok(m2, order),
{
    assert forall|x: u16| #[trigger] order.contains(x) implies x != LOCK_ID_ALL
        && m2.dom().contains(row_key(LOCK_CLS_MEDIA, x)) by {
        lemma_row_key(0, LOCK_CLS_MEDIA, x);
    }
    assert forall|j: u64|
        #[trigger] m2.dom().contains(j) && key_class(j) == LOCK_CLS_MEDIA && key_id(j)
            != LOCK_ID_ALL implies order.contains(key_id(j) as u16) by {
        lemma_key_parts(j);
        assert(m.dom().contains(j));
    }
}

/// A copy of a `u16` vector.
fn copy_u16s(v: &Vec<u16>) -> (r: Vec<u16>)
    ensures
        r@ == v@,
{
    let mut out: Vec<u16> = Vec::new();
    let mut i: usize = 0;
    while i < v.len()
        invariant
            i <= v@.len(),
            out@ == v@.take(i as int),
        decreases v@.len() - i,
    {
        out.push(v[i]);
        assert(v@.take(i as int + 1) =~= v@.take(i as int).push(v@[i as int]));
        i = i + 1;
    }
    assert(v@.take(v@.len() as int) =~= v@);
    out
}

impl DesiredState {
    // A fresh button blanket covers every single-button row, as the box rewrites each when it
    // re-expands the blanket.
    fn clear_button_rows(&mut self, undo: &mut LockUndo)
        requires
            old(self).locks.wf(),
            keys_fit(old(self).locks.map()),
        ensures
            final(self).locks.wf(),
            keys_fit(final(self).locks.map()),
            final(self).locks.map() == without_button_rows(old(self).locks.map()),
            lock_rewind(final(self).locks.map(), final(undo).rows@) == lock_rewind(
                old(self).locks.map(),
                old(undo).rows@,
            ),
            final(undo).media_order@ == old(undo).media_order@,
            final(self).media_order == old(self).media_order,
            final(self).overrides == old(self).overrides,
            final(self).declared_buttons == old(self).declared_buttons,
            final(self).rewrites == old(self).rewrites,
            final(self).transforms == old(self).transforms,
            final(self).catch == old(self).catch,
            final(self).clip == old(self).clip,
    {
        let ghost m0 = self.locks.map();
        let ghost r0 = lock_rewind(m0, undo.rows@);
        let mut next = self.locks.find_in_range(BUTTON_ROWS_LO, BUTTON_ROWS_HI);
        while next.is_some()
            invariant
                self.locks.wf(),
                keys_fit(self.locks.map()),
                forall|k: u64| #[trigger]
                    self.locks.map().dom().contains(k) ==> m0.dom().contains(k)
                        && self.locks.map()[k] == m0[k],
                forall|k: u64| #[trigger]
                    m0.dom().contains(k) && !is_button_row(k) ==> self.locks.map().dom().contains(k),
                lock_rewind(self.locks.map(), undo.rows@) == r0,
                next matches Some(i) ==> i < self.locks.rows().len() && is_button_row(
                    self.locks.rows()[i as int].0,
                ),
                next is None ==> forall|k: u64|
                    BUTTON_ROWS_LO <= k < BUTTON_ROWS_HI ==> !#[trigger] self.locks.map().dom().contains(k),
                undo.media_order@ == old(undo).media_order@,
                self.media_order == old(self).media_order,
                self.overrides == old(self).overrides,
                self.declared_buttons == old(self).declared_buttons,
                self.rewrites == old(self).rewrites,
                self.transforms == old(self).transforms,
                self.catch == old(self).catch,
                self.clip == old(self).clip,
            decreases self.locks.rows().len(),
        {
            let i = match next {
                Some(i) => i,
                None => 0,
            };
            let (k, v) = self.locks.row(i);
            let ghost before = self.locks.map();
            let ghost rows_before = undo.rows@;
            proof {
                crate::keyed::lemma_map_of_row(self.locks.rows(), i as int);
            }
            undo.rows.push((k, Some(v)));
            self.locks.remove(k);
            proof {
                lemma_rewind_step(before, self.locks.map(), rows_before, k);
            }
            next = self.locks.find_in_range(BUTTON_ROWS_LO, BUTTON_ROWS_HI);
        }
        assert(self.locks.map() =~= without_button_rows(m0));
    }

    // Expand the held button blanket onto the declared buttons and drop the blanket row, so a
    // single button written next (usually a release) leaves the rest of the group held.
    fn burst_button_blanket(&mut self, undo: &mut LockUndo)
        requires
            old(self).locks.wf(),
            keys_fit(old(self).locks.map()),
            old(self).declared_buttons matches Some(n) ==> n <= MAX_BUTTONS,
        ensures
            final(self).locks.wf(),
            keys_fit(final(self).locks.map()),
            final(self).locks.map() == burst_rows(old(self).locks.map(), old(self).button_count_spec()),
            lock_rewind(final(self).locks.map(), final(undo).rows@) == lock_rewind(
                old(self).locks.map(),
                old(undo).rows@,
            ),
            final(undo).media_order@ == old(undo).media_order@,
            final(self).media_order == old(self).media_order,
            final(self).overrides == old(self).overrides,
            final(self).declared_buttons == old(self).declared_buttons,
            final(self).rewrites == old(self).rewrites,
            final(self).transforms == old(self).transforms,
            final(self).catch == old(self).catch,
            final(self).clip == old(self).clip,
    {
        let bk = make_row_key(LOCK_CLS_BTN, LOCK_ID_ALL);
        proof {
            lemma_row_key(bk, LOCK_CLS_BTN, LOCK_ID_ALL);
        }
        let blanket = match self.locks.get(bk) {
            None => {
                return;
            },
            Some(b) => b,
        };
        let count = self.button_count();
        let ghost m0 = self.locks.map();
        let ghost r0 = lock_rewind(m0, undo.rows@);
        let mut b: u16 = 0;
        assert(self.locks.map() =~= burst_partial(m0, blanket, 0));
        while b < count
            invariant
                b <= count <= MAX_BUTTONS,
                count == old(self).button_count_spec(),
                m0 == old(self).locks.map(),
                m0.dom().contains(bk),
                m0[bk] == blanket,
                bk == button_blanket_key(),
                bk == 0x1FFFF,
                self.locks.wf(),
                keys_fit(self.locks.map()),
                self.locks.map() == burst_partial(m0, blanket, b as int),
                lock_rewind(self.locks.map(), undo.rows@) == r0,
                undo.media_order@ == old(undo).media_order@,
                self.media_order == old(self).media_order,
                self.overrides == old(self).overrides,
                self.declared_buttons == old(self).declared_buttons,
                self.rewrites == old(self).rewrites,
                self.transforms == old(self).transforms,
                self.catch == old(self).catch,
                self.clip == old(self).clip,
            decreases count - b,
        {
            let row = make_row_key(LOCK_CLS_BTN, b);
            proof {
                lemma_row_key(row, LOCK_CLS_BTN, b);
            }
            if !self.locks.contains(row) {
                let ghost before = self.locks.map();
                let ghost rows_before = undo.rows@;
                undo.rows.push((row, None));
                self.locks.insert(row, blanket);
                proof {
                    lemma_rewind_step(before, self.locks.map(), rows_before, row);
                }
            }
            b = b + 1;
            assert(self.locks.map() =~= burst_partial(m0, blanket, b as int));
        }
        let ghost before = self.locks.map();
        let ghost rows_before = undo.rows@;
        undo.rows.push((bk, Some(blanket)));
        self.locks.remove(bk);
        proof {
            lemma_rewind_step(before, self.locks.map(), rows_before, bk);
        }
        assert(self.locks.map() =~= burst_rows(m0, count));
    }

    /// Track a lock as the box's table holds it, returning what it overwrote. A momentary usage
    /// carries one bit, so the table stores the block or pass a scale amounts to. A button blanket is
    /// one unexpanded row, widened at re-assert onto the declared count; touching one button while
    /// it is held first expands it, so the replay does not undo a later single-button release.
    pub fn apply_lock(&mut self, key: LockKey, scale: i16) -> (undo: LockUndo)
        requires
            old(self).wf(),
        ensures
            final(self).wf(),
            final(self).locks() == locks_after(
                old(self).locks(),
                old(self).button_count_spec(),
                key.0,
                key.1,
                key.2,
                scale,
            ),
            final(self).media_order() == media_after(
                old(self).media_order(),
                old(self).locks(),
                key.0,
                key.1,
                key.2,
                scale,
            ),
            lock_rewind(final(self).locks(), undo.rows()) == old(self).locks(),
            undo.media_order() == old(self).media_order(),
            final(self).overrides() == old(self).overrides(),
            final(self).override_rows() == old(self).override_rows(),
            final(self).declared_buttons() == old(self).declared_buttons(),
            final(self).rewrites() == old(self).rewrites(),
            final(self).transforms() == old(self).transforms(),
            final(self).catch() == old(self).catch(),
            final(self).catch_rows() == old(self).catch_rows(),
            final(self).clip_state() == old(self).clip_state(),
    {
        let (class, id, dir) = key;
        let sc = if class == LOCK_CLS_AXIS {
            scale
        } else if scale < LOCK_SCALE_PASS {
            LOCK_SCALE_BLOCK
        } else {
            LOCK_SCALE_PASS
        };
        let mut undo = LockUndo { rows: Vec::new(), media_order: copy_u16s(&self.media_order) };
        let ghost m0 = self.locks.map();
        let ghost o0 = self.media_order@;
        let bk = make_row_key(LOCK_CLS_BTN, LOCK_ID_ALL);
        proof {
            lemma_row_key(bk, LOCK_CLS_BTN, LOCK_ID_ALL);
        }
        if class == LOCK_CLS_BTN && id == LOCK_ID_ALL {
            self.clear_button_rows(&mut undo);
            proof {
                lemma_button_change_keeps_table(m0, self.locks.map(), o0);
            }
            let ghost mp = self.locks.map();
            let ghost rp = undo.rows@;
            self.write_lock_row(class, id, dir, sc, &mut undo);
            proof {
                lemma_write_keeps_table(without_button_rows(m0), o0, class, id, dir, sc);
                lemma_rewind_step(mp, self.locks.map(), rp, row_key(class, id));
            }
        } else if class == LOCK_CLS_BTN && self.locks.contains(bk) {
            self.burst_button_blanket(&mut undo);
            proof {
                assert forall|j: u64|
                    !(BUTTON_ROWS_LO <= j <= BUTTON_ROWS_HI) implies (
                    #[trigger] self.locks.map().dom().contains(j) == m0.dom().contains(j)) by {}
                lemma_button_change_keeps_table(m0, self.locks.map(), o0);
            }
            let ghost mp = self.locks.map();
            let ghost rp = undo.rows@;
            self.write_lock_row(class, id, dir, sc, &mut undo);
            proof {
                lemma_write_keeps_table(burst_rows(m0, old(self).button_count_spec()), o0, class, id, dir, sc);
                lemma_rewind_step(mp, self.locks.map(), rp, row_key(class, id));
            }
        } else {
            let ghost mp = self.locks.map();
            let ghost rp = undo.rows@;
            self.write_lock_row(class, id, dir, sc, &mut undo);
            proof {
                lemma_write_keeps_table(m0, o0, class, id, dir, sc);
                lemma_rewind_step(mp, self.locks.map(), rp, row_key(class, id));
                assert(lock_rewind(m0, Seq::<(u64, Option<Slots>)>::empty()) == m0);
            }
        }
        undo
    }
}

/// Appending a row appends its commands.
proof fn lemma_expand_push(done: Seq<(u64, Slots)>, r: (u64, Slots), count: u16)
    ensures
        expand_rows(done.push(r), count) == expand_rows(done, count) + expand_row(r, count),
{
    let f = |r: (u64, Slots)| expand_row(r, count);
    assert(done.push(r).map_values(f) =~= done.map_values(f).push(f(r)));
    done.map_values(f).lemma_flatten_push(f(r));
}

impl DesiredState {
    /// Restore what an [`apply_lock`](Self::apply_lock) overwrote, for a frame that never reached
    /// the transport: the rows are put back newest first, so a step that touched a row more than
    /// once (a blanket burst, then a single-button write over it) rewinds to the exact starting row.
    pub fn restore_lock(&mut self, undo: LockUndo)
        requires
            old(self).wf(),
            lock_table_ok(lock_rewind(old(self).locks(), undo.rows()), undo.media_order()),
        ensures
            final(self).wf(),
            final(self).locks() == lock_rewind(old(self).locks(), undo.rows()),
            final(self).media_order() == undo.media_order(),
            final(self).overrides() == old(self).overrides(),
            final(self).override_rows() == old(self).override_rows(),
            final(self).declared_buttons() == old(self).declared_buttons(),
            final(self).rewrites() == old(self).rewrites(),
            final(self).transforms() == old(self).transforms(),
            final(self).catch() == old(self).catch(),
            final(self).catch_rows() == old(self).catch_rows(),
            final(self).clip_state() == old(self).clip_state(),
    {
        let ghost target = lock_rewind(self.locks.map(), undo.rows@);
        let mut i = undo.rows.len();
        assert(undo.rows@.take(i as int) =~= undo.rows@);
        while i > 0
            invariant
                i <= undo.rows@.len(),
                self.locks.wf(),
                lock_rewind(self.locks.map(), undo.rows@.take(i as int)) == target,
                self.overrides == old(self).overrides,
                self.declared_buttons == old(self).declared_buttons,
                self.rewrites == old(self).rewrites,
                self.transforms == old(self).transforms,
                self.catch == old(self).catch,
                self.clip == old(self).clip,
            decreases i,
        {
            i = i - 1;
            let (k, row) = undo.rows[i];
            proof {
                assert(undo.rows@.take(i as int + 1).drop_last() =~= undo.rows@.take(i as int));
                assert(undo.rows@.take(i as int + 1).last() == undo.rows@[i as int]);
            }
            match row {
                Some(r) => {
                    self.locks.insert(k, r);
                },
                None => {
                    self.locks.remove(k);
                },
            }
        }
        assert(undo.rows@.take(0) =~= Seq::<(u64, Option<Slots>)>::empty());
        self.media_order = undo.media_order;
    }

    /// The `(key, scale)` commands that rebuild every held row, for the reconnect reapply: rows by
    /// class; granular media rows in the order they were taken, then the media blanket; any other
    /// class by id. A button blanket widens onto the declared button count.
    pub fn held_locks(&self) -> (v: Vec<(LockKey, i16)>)
        requires
            self.wf(),
        ensures
            v@ == expand_rows(
                reassert_rows(self.lock_rows(), self.locks(), self.media_order()),
                self.button_count_spec(),
            ),
    {
        let count = self.button_count();
        let ghost rows = self.locks.rows();
        let ghost m = self.locks.map();
        let ghost order = self.media_order@;
        let mut out: Vec<(LockKey, i16)> = Vec::new();
        let ghost mut done: Seq<(u64, Slots)> = Seq::empty();
        let mut i: usize = 0;
        while i < self.locks.len()
            invariant
                self.wf(),
                rows == self.locks.rows(),
                m == self.locks.map(),
                i <= rows.len(),
                done == rows.take(i as int).filter(|r: (u64, Slots)| below_media(r)),
                out@ == expand_rows(done, count),
            decreases rows.len() - i,
        {
            let r = self.locks.row(i);
            proof {
                reveal(Seq::filter);
                crate::keyed::lemma_map_of_row(rows, i as int);
                lemma_key_parts(r.0);
                assert(rows.take(i as int + 1).drop_last() =~= rows.take(i as int));
                assert(rows.take(i as int + 1).last() == r);
            }
            if r.0 < 0x30000 {
                push_expanded(&mut out, r, count);
                proof {
                    lemma_expand_push(done, r, count);
                    done = done.push(r);
                }
            }
            i = i + 1;
        }
        assert(rows.take(rows.len() as int) =~= rows);
        let ghost p1 = done;
        let mut j: usize = 0;
        assert(done =~= p1 + media_rows(m, order.take(0)));
        while j < self.media_order.len()
            invariant
                self.wf(),
                m == self.locks.map(),
                order == self.media_order@,
                j <= order.len(),
                done == p1 + media_rows(m, order.take(j as int)),
                out@ == expand_rows(done, count),
            decreases order.len() - j,
        {
            let id = self.media_order[j];
            let k = make_row_key(LOCK_CLS_MEDIA, id);
            proof {
                assert(order.contains(id)) by {
                    assert(order[j as int] == id);
                }
                lemma_row_key(k, LOCK_CLS_MEDIA, id);
            }
            let v = match self.locks.get(k) {
                Some(v) => v,
                None => Slots::default(),
            };
            push_expanded(&mut out, (k, v), count);
            proof {
                lemma_expand_push(done, (k, v), count);
                assert(media_rows(m, order.take(j as int + 1)) =~= media_rows(m, order.take(j as int)).push((k, v)));
                assert(p1 + media_rows(m, order.take(j as int + 1)) =~= done.push((k, v)));
                done = done.push((k, v));
            }
            j = j + 1;
        }
        assert(order.take(order.len() as int) =~= order);
        let ghost p12 = done;
        let mk = make_row_key(LOCK_CLS_MEDIA, LOCK_ID_ALL);
        match self.locks.get(mk) {
            Some(v) => {
                proof {
                    lemma_row_key(mk, LOCK_CLS_MEDIA, LOCK_ID_ALL);
                }
                push_expanded(&mut out, (mk, v), count);
                proof {
                    lemma_expand_push(done, (mk, v), count);
                    done = done.push((mk, v));
                }
            },
            None => {},
        }
        assert(done =~= p12 + media_blanket_row(m));
        let ghost p123 = done;
        let mut i: usize = 0;
        assert(done =~= p123 + rows.take(0).filter(|r: (u64, Slots)| above_media(r))) by {
            reveal(Seq::filter);
        }
        while i < self.locks.len()
            invariant
                self.wf(),
                rows == self.locks.rows(),
                i <= rows.len(),
                done == p123 + rows.take(i as int).filter(|r: (u64, Slots)| above_media(r)),
                out@ == expand_rows(done, count),
            decreases rows.len() - i,
        {
            let r = self.locks.row(i);
            proof {
                reveal(Seq::filter);
                crate::keyed::lemma_map_of_row(rows, i as int);
                lemma_key_parts(r.0);
                assert(rows.take(i as int + 1).drop_last() =~= rows.take(i as int));
                assert(rows.take(i as int + 1).last() == r);
            }
            if r.0 >= 0x40000 {
                push_expanded(&mut out, r, count);
                proof {
                    lemma_expand_push(done, r, count);
                    assert(p123 + rows.take(i as int + 1).filter(|r: (u64, Slots)| above_media(r))
                        =~= done.push(r));
                    done = done.push(r);
                }
            }
            i = i + 1;
        }
        assert(rows.take(rows.len() as int) =~= rows);
        assert(done =~= reassert_rows(rows, m, order));
        out
    }
}

/// What a rewrite change displaced, to restore when its frame never went out.
#[derive(Debug)]
pub struct RewriteUndo {
    key: RewriteKey,
    prior: Option<(usize, StoredRewrite)>,
}

impl RewriteUndo {
    /// The key the change addressed.
    pub closed spec fn key(&self) -> RewriteKeySpec {
        rewrite_key_view(self.key)
    }

    /// The rule the change displaced and its position, if any.
    pub closed spec fn prior(&self) -> Option<(int, RewriteSpec)> {
        match self.prior {
            Some((i, r)) => Some((i as int, rewrite_view(r))),
            None => None,
        }
    }
}

/// What a transform change displaced, to restore when its frame never went out.
#[derive(Debug)]
pub struct TransformUndo {
    key: TransformKey,
    prior: Option<(usize, StoredTransform)>,
}

impl TransformUndo {
    /// The key the change addressed.
    pub closed spec fn key(&self) -> TransformKey {
        self.key
    }

    /// The transform the change displaced and its position, if any.
    pub closed spec fn prior(&self) -> Option<(int, StoredTransform)> {
        match self.prior {
            Some((i, t)) => Some((i as int, t)),
            None => None,
        }
    }
}

/// The payload bytes the rules not carrying `k` hold.
pub open spec fn pool_used(s: Seq<RewriteSpec>, k: RewriteKeySpec) -> int
    decreases s.len(),
{
    if s.len() == 0 {
        0
    } else {
        pool_used(s.drop_last(), k) + if rewrite_key_of(s.last()) == k {
            0
        } else {
            s.last().7.len() as int
        }
    }
}

impl DesiredState {
    /// The position of the rule carrying `key`, if any.
    fn find_rewrite(&self, key: &RewriteKey) -> (r: Option<usize>)
        requires
            unique_keys(self.rewrites(), rewrite_key_fn()),
        ensures
            r matches Some(i) ==> key_at(self.rewrites(), rewrite_key_fn(), rewrite_key_view(*key))
                == Some(i as int),
            r is None ==> key_at(self.rewrites(), rewrite_key_fn(), rewrite_key_view(*key)) is None,
    {
        let ghost s = self.rewrites();
        let ghost f = rewrite_key_fn();
        let mut i: usize = 0;
        while i < self.rewrites.len()
            invariant
                i <= self.rewrites@.len(),
                s == self.rewrites(),
                s.len() == self.rewrites@.len(),
                f == rewrite_key_fn(),
                unique_keys(s, f),
                forall|j: int| 0 <= j < i ==> f(s[j]) != rewrite_key_view(*key),
            decreases self.rewrites@.len() - i,
        {
            if self.rewrites[i].has_key(key) {
                proof {
                    lemma_key_at(s, f, i as int);
                }
                return Some(i);
            }
            i = i + 1;
        }
        None
    }

    /// The position of the transform carrying `key`, if any.
    fn find_transform(&self, key: TransformKey) -> (r: Option<usize>)
        requires
            unique_keys(self.transforms@, transform_key_fn()),
        ensures
            r matches Some(i) ==> key_at(self.transforms@, transform_key_fn(), key) == Some(i as int),
            r is None ==> key_at(self.transforms@, transform_key_fn(), key) is None,
    {
        let ghost f = transform_key_fn();
        let mut i: usize = 0;
        while i < self.transforms.len()
            invariant
                i <= self.transforms@.len(),
                f == transform_key_fn(),
                unique_keys(self.transforms@, f),
                forall|j: int| 0 <= j < i ==> f(self.transforms@[j]) != key,
            decreases self.transforms@.len() - i,
        {
            if self.transforms[i].has_key(key) {
                proof {
                    lemma_key_at(self.transforms@, f, i as int);
                }
                return Some(i);
            }
            i = i + 1;
        }
        None
    }

    /// Record a rewrite rule (add or overwrite) for replay, returning what it displaced. An
    /// overwrite that changes the rule moves it to the end, as the box re-adds it; the same rule
    /// again keeps its place.
    pub fn apply_rewrite(&mut self, rule: StoredRewrite) -> (undo: RewriteUndo)
        requires
            old(self).wf(),
        ensures
            final(self).wf(),
            final(self).rewrites() == rewrite_apply(old(self).rewrites(), rewrite_view(rule)),
            undo.key() == rewrite_key_of(rewrite_view(rule)),
            undo.prior() == prior_at(old(self).rewrites(), rewrite_key_fn(), rewrite_key_of(rewrite_view(rule))),
            put_back(final(self).rewrites(), rewrite_key_fn(), undo.key(), undo.prior())
                == old(self).rewrites(),
            final(self).overrides() == old(self).overrides(),
            final(self).override_rows() == old(self).override_rows(),
            final(self).locks() == old(self).locks(),
            final(self).lock_rows() == old(self).lock_rows(),
            final(self).media_order() == old(self).media_order(),
            final(self).declared_buttons() == old(self).declared_buttons(),
            final(self).transforms() == old(self).transforms(),
            final(self).catch() == old(self).catch(),
            final(self).catch_rows() == old(self).catch_rows(),
            final(self).clip_state() == old(self).clip_state(),
    {
        let ghost s0 = self.rewrites();
        proof {
            lemma_rewrite_apply_put_back(s0, rewrite_view(rule));
        }
        let key = rule.key();
        match self.find_rewrite(&key) {
            Some(i) => {
                if self.rewrites[i].same_as(&rule) {
                    return RewriteUndo { key, prior: Some((i, rule)) };
                }
                let prior = self.rewrites.remove(i);
                self.rewrites.push(rule);
                assert(self.rewrites() =~= s0.remove(i as int).push(rewrite_view(rule)));
                RewriteUndo { key, prior: Some((i, prior)) }
            },
            None => {
                self.rewrites.push(rule);
                assert(self.rewrites() =~= s0.push(rewrite_view(rule)));
                RewriteUndo { key, prior: None }
            },
        }
    }

    /// Record a rewrite-rule removal, returning what it displaced.
    pub fn remove_rewrite(&mut self, key: RewriteKey) -> (undo: RewriteUndo)
        requires
            old(self).wf(),
        ensures
            final(self).wf(),
            final(self).rewrites() == remove_key(old(self).rewrites(), rewrite_key_fn(), rewrite_key_view(key)),
            undo.key() == rewrite_key_view(key),
            undo.prior() == prior_at(old(self).rewrites(), rewrite_key_fn(), rewrite_key_view(key)),
            put_back(final(self).rewrites(), rewrite_key_fn(), undo.key(), undo.prior())
                == old(self).rewrites(),
            final(self).overrides() == old(self).overrides(),
            final(self).override_rows() == old(self).override_rows(),
            final(self).locks() == old(self).locks(),
            final(self).lock_rows() == old(self).lock_rows(),
            final(self).media_order() == old(self).media_order(),
            final(self).declared_buttons() == old(self).declared_buttons(),
            final(self).transforms() == old(self).transforms(),
            final(self).catch() == old(self).catch(),
            final(self).catch_rows() == old(self).catch_rows(),
            final(self).clip_state() == old(self).clip_state(),
    {
        let ghost s0 = self.rewrites();
        proof {
            lemma_remove_put_back(s0, rewrite_key_fn(), rewrite_key_view(key));
        }
        match self.find_rewrite(&key) {
            Some(i) => {
                let prior = self.rewrites.remove(i);
                assert(self.rewrites() =~= s0.remove(i as int));
                RewriteUndo { key, prior: Some((i, prior)) }
            },
            None => RewriteUndo { key, prior: None },
        }
    }

    /// Restore what an [`apply_rewrite`](Self::apply_rewrite) or
    /// [`remove_rewrite`](Self::remove_rewrite) displaced, for a frame that never went out: the rule
    /// returns to its place, or leaves if it had none.
    pub fn restore_rewrite(&mut self, undo: RewriteUndo)
        requires
            old(self).wf(),
            unique_keys(put_back(old(self).rewrites(), rewrite_key_fn(), undo.key(), undo.prior()), rewrite_key_fn()),
        ensures
            final(self).wf(),
            final(self).rewrites() == put_back(old(self).rewrites(), rewrite_key_fn(), undo.key(), undo.prior()),
            final(self).overrides() == old(self).overrides(),
            final(self).override_rows() == old(self).override_rows(),
            final(self).locks() == old(self).locks(),
            final(self).lock_rows() == old(self).lock_rows(),
            final(self).media_order() == old(self).media_order(),
            final(self).declared_buttons() == old(self).declared_buttons(),
            final(self).transforms() == old(self).transforms(),
            final(self).catch() == old(self).catch(),
            final(self).catch_rows() == old(self).catch_rows(),
            final(self).clip_state() == old(self).clip_state(),
    {
        let ghost s0 = self.rewrites();
        let ghost f = rewrite_key_fn();
        let ghost k = rewrite_key_view(undo.key);
        let mut kept: Vec<StoredRewrite> = Vec::new();
        let mut i: usize = 0;
        while i < self.rewrites.len()
            invariant
                i <= self.rewrites@.len(),
                s0 == self.rewrites(),
                s0.len() == self.rewrites@.len(),
                f == rewrite_key_fn(),
                k == rewrite_key_view(undo.key),
                kept@.map_values(|r: StoredRewrite| rewrite_view(r)) == drop_key(s0.take(i as int), f, k),
            decreases self.rewrites@.len() - i,
        {
            proof {
                assert(s0.take(i as int + 1).drop_last() =~= s0.take(i as int));
                assert(s0.take(i as int + 1).last() == s0[i as int]);
            }
            if !self.rewrites[i].has_key(&undo.key) {
                let c = self.rewrites[i].clone();
                let ghost before = kept@;
                kept.push(c);
                assert(kept@.map_values(|r: StoredRewrite| rewrite_view(r)) =~= before.map_values(
                    |r: StoredRewrite| rewrite_view(r),
                ).push(rewrite_view(c)));
            }
            i = i + 1;
        }
        assert(s0.take(s0.len() as int) =~= s0);
        match undo.prior {
            Some((at, rule)) => {
                let n = kept.len();
                let pos = if at < n { at } else { n };
                let ghost before = kept@;
                kept.insert(pos, rule);
                assert(kept@.map_values(|r: StoredRewrite| rewrite_view(r)) =~= before.map_values(
                    |r: StoredRewrite| rewrite_view(r),
                ).insert(pos as int, rewrite_view(rule)));
            },
            None => {},
        }
        self.rewrites = kept;
    }

    /// Drop every held rewrite rule (the whole-table clear).
    pub fn clear_rewrites(&mut self)
        requires
            old(self).wf(),
        ensures
            final(self).wf(),
            final(self).rewrites() == Seq::<RewriteSpec>::empty(),
            final(self).overrides() == old(self).overrides(),
            final(self).override_rows() == old(self).override_rows(),
            final(self).locks() == old(self).locks(),
            final(self).lock_rows() == old(self).lock_rows(),
            final(self).media_order() == old(self).media_order(),
            final(self).declared_buttons() == old(self).declared_buttons(),
            final(self).transforms() == old(self).transforms(),
            final(self).catch() == old(self).catch(),
            final(self).catch_rows() == old(self).catch_rows(),
            final(self).clip_state() == old(self).clip_state(),
    {
        self.rewrites.clear();
        assert(self.rewrites() =~= Seq::<RewriteSpec>::empty());
    }

    /// Every held rewrite rule, in the box's order, for reconnect and keepalive re-asserts.
    pub fn held_rewrites(&self) -> (v: Vec<StoredRewrite>)
        ensures
            v@.map_values(|r: StoredRewrite| rewrite_view(r)) == self.rewrites(),
    {
        let mut out: Vec<StoredRewrite> = Vec::new();
        let mut i: usize = 0;
        while i < self.rewrites.len()
            invariant
                i <= self.rewrites@.len(),
                out@.map_values(|r: StoredRewrite| rewrite_view(r)) == self.rewrites().take(i as int),
            decreases self.rewrites@.len() - i,
        {
            let c = self.rewrites[i].clone();
            let ghost before = out@;
            out.push(c);
            assert(out@.map_values(|r: StoredRewrite| rewrite_view(r)) =~= before.map_values(
                |r: StoredRewrite| rewrite_view(r),
            ).push(rewrite_view(c)));
            assert(self.rewrites()[i as int] == rewrite_view(self.rewrites@[i as int]));
            assert(self.rewrites().take(i as int + 1) =~= self.rewrites().take(i as int).push(
                self.rewrites()[i as int],
            ));
            i = i + 1;
        }
        assert(self.rewrites().take(self.rewrites().len() as int) =~= self.rewrites());
        out
    }

    /// Whether a rule carrying `key` is held, making a set an overwrite.
    pub fn holds_rewrite(&self, key: &RewriteKey) -> (r: bool)
        requires
            self.wf(),
        ensures
            r == has_key(self.rewrites(), rewrite_key_fn(), rewrite_key_view(*key)),
    {
        self.find_rewrite(key).is_some()
    }

    /// Held rule count, against the box's ceiling.
    pub fn rewrite_count(&self) -> (n: usize)
        ensures
            n == self.rewrites().len(),
    {
        self.rewrites.len()
    }

    /// Pool bytes the held rules take, less the rule under `key`: what the box counts before
    /// costing an add or overwrite of that key. Saturates at the largest `usize`.
    pub fn rewrite_pool_used_except(&self, key: &RewriteKey) -> (n: usize)
        ensures
            n == (if pool_used(self.rewrites(), rewrite_key_view(*key)) <= usize::MAX {
                pool_used(self.rewrites(), rewrite_key_view(*key))
            } else {
                usize::MAX as int
            }),
    {
        let ghost s = self.rewrites();
        let ghost k = rewrite_key_view(*key);
        let mut total: usize = 0;
        let mut i: usize = 0;
        while i < self.rewrites.len()
            invariant
                i <= self.rewrites@.len(),
                s == self.rewrites(),
                s.len() == self.rewrites@.len(),
                k == rewrite_key_view(*key),
                total == (if pool_used(s.take(i as int), k) <= usize::MAX {
                    pool_used(s.take(i as int), k)
                } else {
                    usize::MAX as int
                }),
                pool_used(s.take(i as int), k) >= 0,
            decreases self.rewrites@.len() - i,
        {
            proof {
                assert(s.take(i as int + 1).drop_last() =~= s.take(i as int));
                assert(s.take(i as int + 1).last() == s[i as int]);
            }
            if !self.rewrites[i].has_key(key) {
                total = total.saturating_add(self.rewrites[i].payload.len());
            }
            i = i + 1;
        }
        assert(s.take(s.len() as int) =~= s);
        total
    }

    /// Record a field transform (add or overwrite) for replay, returning what it displaced. An
    /// overwrite keeps the entry's position, as the box does.
    pub fn apply_transform(&mut self, entry: StoredTransform) -> (undo: TransformUndo)
        requires
            old(self).wf(),
        ensures
            final(self).wf(),
            final(self).transforms() == transform_apply(old(self).transforms(), entry),
            undo.key() == transform_key_of(entry),
            undo.prior() == prior_at(old(self).transforms(), transform_key_fn(), transform_key_of(entry)),
            transform_put_back(final(self).transforms(), undo.key(), undo.prior()) == old(self).transforms(),
            final(self).overrides() == old(self).overrides(),
            final(self).override_rows() == old(self).override_rows(),
            final(self).locks() == old(self).locks(),
            final(self).lock_rows() == old(self).lock_rows(),
            final(self).media_order() == old(self).media_order(),
            final(self).declared_buttons() == old(self).declared_buttons(),
            final(self).rewrites() == old(self).rewrites(),
            final(self).catch() == old(self).catch(),
            final(self).catch_rows() == old(self).catch_rows(),
            final(self).clip_state() == old(self).clip_state(),
    {
        proof {
            lemma_transform_apply_put_back(self.transforms@, entry);
        }
        let key = entry.key();
        match self.find_transform(key) {
            Some(i) => {
                let prior = self.transforms[i];
                self.transforms.set(i, entry);
                TransformUndo { key, prior: Some((i, prior)) }
            },
            None => {
                self.transforms.push(entry);
                TransformUndo { key, prior: None }
            },
        }
    }

    /// Record a transform removal, returning what it displaced.
    pub fn remove_transform(&mut self, key: TransformKey) -> (undo: TransformUndo)
        requires
            old(self).wf(),
        ensures
            final(self).wf(),
            final(self).transforms() == remove_key(old(self).transforms(), transform_key_fn(), key),
            undo.key() == key,
            undo.prior() == prior_at(old(self).transforms(), transform_key_fn(), key),
            transform_put_back(final(self).transforms(), undo.key(), undo.prior()) == old(self).transforms(),
            final(self).overrides() == old(self).overrides(),
            final(self).override_rows() == old(self).override_rows(),
            final(self).locks() == old(self).locks(),
            final(self).lock_rows() == old(self).lock_rows(),
            final(self).media_order() == old(self).media_order(),
            final(self).declared_buttons() == old(self).declared_buttons(),
            final(self).rewrites() == old(self).rewrites(),
            final(self).catch() == old(self).catch(),
            final(self).catch_rows() == old(self).catch_rows(),
            final(self).clip_state() == old(self).clip_state(),
    {
        proof {
            lemma_transform_remove_put_back(self.transforms@, key);
        }
        match self.find_transform(key) {
            Some(i) => {
                let prior = self.transforms.remove(i);
                TransformUndo { key, prior: Some((i, prior)) }
            },
            None => TransformUndo { key, prior: None },
        }
    }

    /// Restore what an [`apply_transform`](Self::apply_transform) or
    /// [`remove_transform`](Self::remove_transform) displaced, for a frame that never went out.
    pub fn restore_transform(&mut self, undo: TransformUndo)
        requires
            old(self).wf(),
            unique_keys(transform_put_back(old(self).transforms(), undo.key(), undo.prior()), transform_key_fn()),
        ensures
            final(self).wf(),
            final(self).transforms() == transform_put_back(old(self).transforms(), undo.key(), undo.prior()),
            final(self).overrides() == old(self).overrides(),
            final(self).override_rows() == old(self).override_rows(),
            final(self).locks() == old(self).locks(),
            final(self).lock_rows() == old(self).lock_rows(),
            final(self).media_order() == old(self).media_order(),
            final(self).declared_buttons() == old(self).declared_buttons(),
            final(self).rewrites() == old(self).rewrites(),
            final(self).catch() == old(self).catch(),
            final(self).catch_rows() == old(self).catch_rows(),
            final(self).clip_state() == old(self).clip_state(),
    {
        let ghost s0 = self.transforms@;
        let ghost f = transform_key_fn();
        match undo.prior {
            Some((at, entry)) => {
                match self.find_transform(undo.key) {
                    Some(cur) => {
                        self.transforms.set(cur, entry);
                    },
                    None => {
                        let n = self.transforms.len();
                        let pos = if at < n { at } else { n };
                        self.transforms.insert(pos, entry);
                    },
                }
            },
            None => {
                let mut kept: Vec<StoredTransform> = Vec::new();
                let mut i: usize = 0;
                while i < self.transforms.len()
                    invariant
                        i <= self.transforms@.len(),
                        s0 == self.transforms@,
                        f == transform_key_fn(),
                        kept@ == drop_key(s0.take(i as int), f, undo.key),
                    decreases self.transforms@.len() - i,
                {
                    proof {
                        assert(s0.take(i as int + 1).drop_last() =~= s0.take(i as int));
                        assert(s0.take(i as int + 1).last() == s0[i as int]);
                    }
                    let t = self.transforms[i];
                    if !t.has_key(undo.key) {
                        kept.push(t);
                    }
                    i = i + 1;
                }
                assert(s0.take(s0.len() as int) =~= s0);
                self.transforms = kept;
            },
        }
    }

    /// Drop every held transform (the whole-table clear).
    pub fn clear_transforms(&mut self)
        requires
            old(self).wf(),
        ensures
            final(self).wf(),
            final(self).transforms() == Seq::<StoredTransform>::empty(),
            final(self).overrides() == old(self).overrides(),
            final(self).override_rows() == old(self).override_rows(),
            final(self).locks() == old(self).locks(),
            final(self).lock_rows() == old(self).lock_rows(),
            final(self).media_order() == old(self).media_order(),
            final(self).declared_buttons() == old(self).declared_buttons(),
            final(self).rewrites() == old(self).rewrites(),
            final(self).catch() == old(self).catch(),
            final(self).catch_rows() == old(self).catch_rows(),
            final(self).clip_state() == old(self).clip_state(),
    {
        self.transforms.clear();
    }

    /// Add each of `held` in turn, as a failed whole-table clear puts back the rules it took.
    pub fn restore_rewrites(&mut self, held: Vec<StoredRewrite>)
        requires
            old(self).wf(),
        ensures
            final(self).wf(),
            final(self).rewrites() == rewrites_applied(
                old(self).rewrites(),
                held@.map_values(|r: StoredRewrite| rewrite_view(r)),
            ),
            final(self).transforms() == old(self).transforms(),
            final(self).overrides() == old(self).overrides(),
            final(self).override_rows() == old(self).override_rows(),
            final(self).locks() == old(self).locks(),
            final(self).lock_rows() == old(self).lock_rows(),
            final(self).media_order() == old(self).media_order(),
            final(self).declared_buttons() == old(self).declared_buttons(),
            final(self).catch() == old(self).catch(),
            final(self).catch_rows() == old(self).catch_rows(),
            final(self).clip_state() == old(self).clip_state(),
    {
        let ghost d0 = *self;
        let ghost hv = held@.map_values(|r: StoredRewrite| rewrite_view(r));
        let mut i: usize = 0;
        while i < held.len()
            invariant
                i <= held@.len(),
                hv == held@.map_values(|r: StoredRewrite| rewrite_view(r)),
                self.wf(),
                self.rewrites() == rewrites_applied(d0.rewrites(), hv.take(i as int)),
                self.transforms() == d0.transforms(),
                self.overrides() == d0.overrides(),
                self.override_rows() == d0.override_rows(),
                self.locks() == d0.locks(),
                self.lock_rows() == d0.lock_rows(),
                self.media_order() == d0.media_order(),
                self.declared_buttons() == d0.declared_buttons(),
                self.catch() == d0.catch(),
                self.catch_rows() == d0.catch_rows(),
                self.clip_state() == d0.clip_state(),
            decreases held@.len() - i,
        {
            let r = held[i].clone();
            assert(hv.take(i as int + 1).drop_last() =~= hv.take(i as int));
            self.apply_rewrite(r);
            i = i + 1;
        }
        assert(hv.take(held@.len() as int) =~= hv);
    }

    /// Add each of `held` in turn, as a failed whole-table clear puts back the transforms it took.
    pub fn restore_transforms(&mut self, held: Vec<StoredTransform>)
        requires
            old(self).wf(),
        ensures
            final(self).wf(),
            final(self).transforms() == transforms_applied(old(self).transforms(), held@),
            final(self).rewrites() == old(self).rewrites(),
            final(self).overrides() == old(self).overrides(),
            final(self).override_rows() == old(self).override_rows(),
            final(self).locks() == old(self).locks(),
            final(self).lock_rows() == old(self).lock_rows(),
            final(self).media_order() == old(self).media_order(),
            final(self).declared_buttons() == old(self).declared_buttons(),
            final(self).catch() == old(self).catch(),
            final(self).catch_rows() == old(self).catch_rows(),
            final(self).clip_state() == old(self).clip_state(),
    {
        let ghost d0 = *self;
        let mut i: usize = 0;
        while i < held.len()
            invariant
                i <= held@.len(),
                self.wf(),
                self.transforms() == transforms_applied(d0.transforms(), held@.take(i as int)),
                self.rewrites() == d0.rewrites(),
                self.overrides() == d0.overrides(),
                self.override_rows() == d0.override_rows(),
                self.locks() == d0.locks(),
                self.lock_rows() == d0.lock_rows(),
                self.media_order() == d0.media_order(),
                self.declared_buttons() == d0.declared_buttons(),
                self.catch() == d0.catch(),
                self.catch_rows() == d0.catch_rows(),
                self.clip_state() == d0.clip_state(),
            decreases held@.len() - i,
        {
            assert(held@.take(i as int + 1).drop_last() =~= held@.take(i as int));
            self.apply_transform(held[i]);
            i = i + 1;
        }
        assert(held@.take(held@.len() as int) =~= held@);
    }

    /// Whether a transform carrying `key` is held, making a set an overwrite.
    pub fn holds_transform(&self, key: TransformKey) -> (r: bool)
        requires
            self.wf(),
        ensures
            r == has_key(self.transforms(), transform_key_fn(), key),
    {
        self.find_transform(key).is_some()
    }

    /// Held transform count, against the box's ceiling.
    pub fn transform_count(&self) -> (n: usize)
        ensures
            n == self.transforms().len(),
    {
        self.transforms.len()
    }

    /// Every held transform in installation order, for reconnect and keepalive re-asserts.
    pub fn held_transforms(&self) -> (v: Vec<StoredTransform>)
        ensures
            v@ == self.transforms(),
    {
        let mut out: Vec<StoredTransform> = Vec::new();
        let mut i: usize = 0;
        while i < self.transforms.len()
            invariant
                i <= self.transforms@.len(),
                out@ == self.transforms@.take(i as int),
            decreases self.transforms@.len() - i,
        {
            out.push(self.transforms[i]);
            assert(self.transforms@.take(i as int + 1) =~= self.transforms@.take(i as int).push(
                self.transforms@[i as int],
            ));
            i = i + 1;
        }
        assert(self.transforms@.take(self.transforms@.len() as int) =~= self.transforms@);
        out
    }
}

/// Every element of a sequence is `0`.
pub open spec fn all_zero(s: Seq<u8>) -> bool {
    forall|i: int| 0 <= i < s.len() ==> s[i] == 0
}

/// The clip settings a rebuild sends: each setting off its default, by id.
pub open spec fn settings_frames(s: Seq<u8>, n: nat) -> Seq<(u8, u8)>
    decreases n,
{
    if n == 0 {
        Seq::empty()
    } else if s[n - 1] != 0 {
        settings_frames(s, (n - 1) as nat).push(((n - 1) as u8, s[n - 1]))
    } else {
        settings_frames(s, (n - 1) as nat)
    }
}

/// Input triggers as a table: a later one at a key replaces an earlier.
pub open spec fn triggers_map(s: Seq<ClipTrigger>) -> Map<u64, ClipTrigger>
    decreases s.len(),
{
    if s.len() == 0 {
        Map::empty()
    } else {
        triggers_map(s.drop_last()).insert(clip_trigger_key(s.last()), s.last())
    }
}

/// The packet triggers after a bind: one at the same key is replaced in place; a new key joins
/// the end.
pub open spec fn packet_bind_spec(s: Seq<PacketTriggerSpec>, t: PacketTriggerSpec) -> Seq<PacketTriggerSpec> {
    match first_at(s, packet_key_fn(), packet_key_of(t)) {
        Some(i) => s.update(i, t),
        None => s.push(t),
    }
}

/// Whether a packet trigger consumes its packet.
pub open spec fn consuming() -> spec_fn(PacketTriggerSpec) -> bool {
    |t: PacketTriggerSpec| t.4
}

/// Whether a packet trigger passes its packet.
pub open spec fn passing() -> spec_fn(PacketTriggerSpec) -> bool {
    |t: PacketTriggerSpec| !t.4
}

/// The frames that rebuild the held clip configuration on a box holding none: each setting off its
/// default, then the input triggers in key order, then the packet triggers in the box's order.
#[derive(Debug)]
pub struct ClipConfig {
    pub settings: Vec<(u8, u8)>,
    pub triggers: Vec<ClipTrigger>,
    pub packet_triggers: Vec<ClipPacketTrigger>,
}

/// A copy of packet triggers.
fn copy_packets(v: &Vec<ClipPacketTrigger>) -> (r: Vec<ClipPacketTrigger>)
    ensures
        r@.map_values(|t: ClipPacketTrigger| packet_view(t)) == v@.map_values(
            |t: ClipPacketTrigger| packet_view(t),
        ),
{
    let mut out: Vec<ClipPacketTrigger> = Vec::new();
    let mut i: usize = 0;
    while i < v.len()
        invariant
            i <= v@.len(),
            out@.map_values(|t: ClipPacketTrigger| packet_view(t)) == v@.take(i as int).map_values(
                |t: ClipPacketTrigger| packet_view(t),
            ),
        decreases v@.len() - i,
    {
        let c = v[i].clone();
        let ghost before = out@;
        out.push(c);
        assert(out@.map_values(|t: ClipPacketTrigger| packet_view(t)) =~= before.map_values(
            |t: ClipPacketTrigger| packet_view(t),
        ).push(packet_view(c)));
        assert(v@.take(i as int + 1).map_values(|t: ClipPacketTrigger| packet_view(t)) =~= v@.take(
            i as int,
        ).map_values(|t: ClipPacketTrigger| packet_view(t)).push(packet_view(v@[i as int])));
        i = i + 1;
    }
    assert(v@.take(v@.len() as int) =~= v@);
    out
}

impl DesiredState {
    /// Record the catch table the box should hold, re-asserted on reconnect.
    pub fn set_catch(&mut self, filters: FilterSet)
        requires
            old(self).wf(),
            filters.wf(),
        ensures
            final(self).wf(),
            final(self).catch() == filters.map(),
            final(self).catch_rows() == filters.rows(),
            final(self).overrides() == old(self).overrides(),
            final(self).override_rows() == old(self).override_rows(),
            final(self).locks() == old(self).locks(),
            final(self).lock_rows() == old(self).lock_rows(),
            final(self).media_order() == old(self).media_order(),
            final(self).declared_buttons() == old(self).declared_buttons(),
            final(self).rewrites() == old(self).rewrites(),
            final(self).transforms() == old(self).transforms(),
            final(self).clip_state() == old(self).clip_state(),
    {
        self.catch = filters;
    }

    /// The catch table the box should hold.
    pub fn catch_table(&self) -> (r: FilterSet)
        requires
            self.wf(),
        ensures
            r.wf(),
            r.map() == self.catch(),
            r.rows() == self.catch_rows(),
    {
        self.catch.duplicate()
    }

    /// An append (`true`) or a clear (`false`): either way the caller has dealt with a lost clip.
    pub fn clip_loaded(&mut self, loaded: bool)
        requires
            old(self).wf(),
            old(self).ring_gen() < u64::MAX,
        ensures
            final(self).wf(),
            final(self).clip_loaded_flag() == loaded,
            final(self).clip_ring() == loaded,
            final(self).ring_gen() == old(self).ring_gen() + 1,
            !final(self).clip_lost_flag(),
            final(self).clip_settings() == old(self).clip_settings(),
            final(self).clip_triggers() == old(self).clip_triggers(),
            final(self).clip_trigger_rows() == old(self).clip_trigger_rows(),
            final(self).packet_triggers() == old(self).packet_triggers(),
            final(self).overrides() == old(self).overrides(),
            final(self).locks() == old(self).locks(),
            final(self).rewrites() == old(self).rewrites(),
            final(self).transforms() == old(self).transforms(),
            final(self).catch() == old(self).catch(),
    {
        self.clip.loaded = loaded;
        self.clip.ring = loaded;
        self.clip.ring_gen = self.clip.ring_gen + 1;
        self.clip.lost = false;
    }

    /// The ring generation, to stamp a reading with.
    pub fn clip_ring_gen(&self) -> (g: u64)
        ensures
            g == self.ring_gen(),
    {
        self.clip.ring_gen
    }

    /// Whether the ring held the clip when last known.
    pub fn clip_ring_held(&self) -> (r: bool)
        ensures
            r == self.clip_ring(),
    {
        self.clip.ring
    }

    /// A ring reading taken when the generation read `seen`; a reading taken across an append or
    /// clear is ignored. With `released`, the box released the session first, so a ring it held and
    /// no longer does is a lost clip.
    pub fn clip_note_ring(&mut self, seen: u64, status: &ClipStatus, released: bool)
        requires
            old(self).wf(),
        ensures
            final(self).wf(),
            seen != old(self).ring_gen() ==> final(self).clip_state() == old(self).clip_state(),
            seen == old(self).ring_gen() ==> {
                &&& final(self).clip_ring() == ring_holds_spec(*status)
                &&& final(self).clip_lost_flag() == (old(self).clip_lost_flag() || (released
                    && old(self).clip_ring() && !ring_holds_spec(*status)))
                &&& final(self).clip_loaded_flag() == (old(self).clip_loaded_flag() && !(released
                    && old(self).clip_ring() && !ring_holds_spec(*status)))
                &&& final(self).ring_gen() == old(self).ring_gen()
                &&& final(self).clip_settings() == old(self).clip_settings()
                &&& final(self).clip_triggers() == old(self).clip_triggers()
                &&& final(self).clip_trigger_rows() == old(self).clip_trigger_rows()
                &&& final(self).packet_triggers() == old(self).packet_triggers()
            },
            final(self).overrides() == old(self).overrides(),
            final(self).locks() == old(self).locks(),
            final(self).rewrites() == old(self).rewrites(),
            final(self).transforms() == old(self).transforms(),
            final(self).catch() == old(self).catch(),
    {
        if seen != self.clip.ring_gen {
            return;
        }
        let holds = ring_holds(status);
        if released && self.clip.ring && !holds {
            self.clip.lost = true;
            self.clip.loaded = false;
        }
        self.clip.ring = holds;
    }

    /// Whether the box dropped the loaded clip.
    pub fn clip_lost(&self) -> (r: bool)
        ensures
            r == self.clip_lost_flag(),
    {
        self.clip.lost
    }

    /// Record a clip setting; an unknown id changes nothing.
    pub fn clip_setting(&mut self, id: u8, value: u8)
        requires
            old(self).wf(),
        ensures
            final(self).wf(),
            final(self).clip_settings() == (if (id as int) < CLIP_SET_COUNT {
                old(self).clip_settings().update(id as int, value)
            } else {
                old(self).clip_settings()
            }),
            final(self).clip_loaded_flag() == old(self).clip_loaded_flag(),
            final(self).clip_ring() == old(self).clip_ring(),
            final(self).ring_gen() == old(self).ring_gen(),
            final(self).clip_lost_flag() == old(self).clip_lost_flag(),
            final(self).clip_triggers() == old(self).clip_triggers(),
            final(self).clip_trigger_rows() == old(self).clip_trigger_rows(),
            final(self).packet_triggers() == old(self).packet_triggers(),
            final(self).overrides() == old(self).overrides(),
            final(self).locks() == old(self).locks(),
            final(self).rewrites() == old(self).rewrites(),
            final(self).transforms() == old(self).transforms(),
            final(self).catch() == old(self).catch(),
    {
        if (id as usize) < CLIP_SET_COUNT {
            self.clip.settings.set(id as usize, value);
        }
    }

    /// Record an input trigger binding (add or overwrite at its key).
    pub fn clip_bind(&mut self, trigger: ClipTrigger)
        requires
            old(self).wf(),
        ensures
            final(self).wf(),
            final(self).clip_triggers() == old(self).clip_triggers().insert(
                clip_trigger_key(trigger),
                trigger,
            ),
            final(self).clip_settings() == old(self).clip_settings(),
            final(self).clip_loaded_flag() == old(self).clip_loaded_flag(),
            final(self).ring_gen() == old(self).ring_gen(),
            final(self).packet_triggers() == old(self).packet_triggers(),
            final(self).overrides() == old(self).overrides(),
            final(self).locks() == old(self).locks(),
            final(self).rewrites() == old(self).rewrites(),
            final(self).transforms() == old(self).transforms(),
            final(self).catch() == old(self).catch(),
    {
        let k = trigger_key(&trigger);
        self.clip.triggers.insert(k, trigger);
    }

    /// Record an input trigger removal at `key` (see [`trigger_key`]).
    pub fn clip_unbind(&mut self, key: u64)
        requires
            old(self).wf(),
        ensures
            final(self).wf(),
            final(self).clip_triggers() == old(self).clip_triggers().remove(key),
            final(self).clip_settings() == old(self).clip_settings(),
            final(self).clip_loaded_flag() == old(self).clip_loaded_flag(),
            final(self).ring_gen() == old(self).ring_gen(),
            final(self).packet_triggers() == old(self).packet_triggers(),
            final(self).overrides() == old(self).overrides(),
            final(self).locks() == old(self).locks(),
            final(self).rewrites() == old(self).rewrites(),
            final(self).transforms() == old(self).transforms(),
            final(self).catch() == old(self).catch(),
    {
        self.clip.triggers.remove(key);
    }

    /// The position of the first packet trigger at `trigger`'s key, if any.
    fn find_packet(&self, trigger: &ClipPacketTrigger) -> (r: Option<usize>)
        ensures
            match r {
                Some(i) => i < self.packet_triggers().len() && first_at(self.packet_triggers(), packet_key_fn(), packet_key_of(packet_view(*trigger))) == Some(i as int),
                None => first_at(self.packet_triggers(), packet_key_fn(), packet_key_of(packet_view(*trigger))) is None,
            },
    {
        let ghost s0 = self.packet_triggers();
        let ghost f = packet_key_fn();
        let ghost k = packet_key_of(packet_view(*trigger));
        let mut i: usize = 0;
        while i < self.clip.packet_triggers.len()
            invariant
                i <= self.clip.packet_triggers@.len(),
                s0 == self.packet_triggers(),
                s0.len() == self.clip.packet_triggers@.len(),
                f == packet_key_fn(),
                k == packet_key_of(packet_view(*trigger)),
                first_at(s0.take(i as int), f, k) is None,
            decreases self.clip.packet_triggers@.len() - i,
        {
            proof {
                assert(s0.take(i as int + 1).drop_last() =~= s0.take(i as int));
                assert(s0[i as int] == packet_view(self.clip.packet_triggers@[i as int]));
            }
            if self.clip.packet_triggers[i].same_key(trigger) {
                proof {
                    lemma_first_at_prefix(s0, f, k, i as int + 1);
                }
                return Some(i);
            }
            i = i + 1;
        }
        assert(s0.take(s0.len() as int) =~= s0);
        None
    }

    /// Record a packet trigger binding: an overwrite keeps its place, as the box keeps it.
    pub fn clip_packet_bind(&mut self, trigger: &ClipPacketTrigger)
        requires
            old(self).wf(),
        ensures
            final(self).wf(),
            final(self).packet_triggers() == packet_bind_spec(old(self).packet_triggers(), packet_view(*trigger)),
            final(self).clip_triggers() == old(self).clip_triggers(),
            final(self).clip_settings() == old(self).clip_settings(),
            final(self).clip_loaded_flag() == old(self).clip_loaded_flag(),
            final(self).ring_gen() == old(self).ring_gen(),
            final(self).overrides() == old(self).overrides(),
            final(self).locks() == old(self).locks(),
            final(self).rewrites() == old(self).rewrites(),
            final(self).transforms() == old(self).transforms(),
            final(self).catch() == old(self).catch(),
    {
        let ghost s0 = self.packet_triggers();
        let c = trigger.clone();
        match self.find_packet(trigger) {
            Some(i) => {
                self.clip.packet_triggers.set(i, c);
                assert(self.packet_triggers() =~= s0.update(i as int, packet_view(*trigger)));
            },
            None => {
                self.clip.packet_triggers.push(c);
                assert(self.packet_triggers() =~= s0.push(packet_view(*trigger)));
            },
        }
    }

    /// Record a packet trigger removal: every trigger at `key`'s key leaves.
    pub fn clip_packet_unbind(&mut self, key: &ClipPacketTrigger)
        requires
            old(self).wf(),
        ensures
            final(self).wf(),
            final(self).packet_triggers() == drop_key(old(self).packet_triggers(), packet_key_fn(), packet_key_of(packet_view(*key))),
            final(self).clip_triggers() == old(self).clip_triggers(),
            final(self).clip_settings() == old(self).clip_settings(),
            final(self).clip_loaded_flag() == old(self).clip_loaded_flag(),
            final(self).ring_gen() == old(self).ring_gen(),
            final(self).overrides() == old(self).overrides(),
            final(self).locks() == old(self).locks(),
            final(self).rewrites() == old(self).rewrites(),
            final(self).transforms() == old(self).transforms(),
            final(self).catch() == old(self).catch(),
    {
        let ghost s0 = self.packet_triggers();
        let ghost f = packet_key_fn();
        let ghost k = packet_key_of(packet_view(*key));
        let mut kept: Vec<ClipPacketTrigger> = Vec::new();
        let mut i: usize = 0;
        while i < self.clip.packet_triggers.len()
            invariant
                i <= self.clip.packet_triggers@.len(),
                s0 == self.packet_triggers(),
                s0.len() == self.clip.packet_triggers@.len(),
                f == packet_key_fn(),
                k == packet_key_of(packet_view(*key)),
                kept@.map_values(|t: ClipPacketTrigger| packet_view(t)) == drop_key(s0.take(i as int), f, k),
            decreases self.clip.packet_triggers@.len() - i,
        {
            proof {
                assert(s0.take(i as int + 1).drop_last() =~= s0.take(i as int));
                assert(s0[i as int] == packet_view(self.clip.packet_triggers@[i as int]));
                assert(s0.take(i as int + 1).last() == s0[i as int]);
            }
            if !self.clip.packet_triggers[i].same_key(key) {
                let c = self.clip.packet_triggers[i].clone();
                let ghost before = kept@;
                kept.push(c);
                assert(kept@.map_values(|t: ClipPacketTrigger| packet_view(t)) =~= before.map_values(
                    |t: ClipPacketTrigger| packet_view(t),
                ).push(packet_view(c)));
            }
            i = i + 1;
        }
        assert(s0.take(s0.len() as int) =~= s0);
        self.clip.packet_triggers = kept;
    }

    /// The opt-in went off, removing every consuming packet trigger. Returns what was dropped, for
    /// a caller whose frame never went out to restore.
    pub fn clip_packet_drop_consuming(&mut self) -> (dropped: Vec<ClipPacketTrigger>)
        requires
            old(self).wf(),
        ensures
            final(self).wf(),
            final(self).packet_triggers() == select(old(self).packet_triggers(), passing()),
            dropped@.map_values(|t: ClipPacketTrigger| packet_view(t)) == select(old(self).packet_triggers(), consuming()),
            final(self).clip_triggers() == old(self).clip_triggers(),
            final(self).clip_settings() == old(self).clip_settings(),
            final(self).clip_loaded_flag() == old(self).clip_loaded_flag(),
            final(self).ring_gen() == old(self).ring_gen(),
            final(self).overrides() == old(self).overrides(),
            final(self).locks() == old(self).locks(),
            final(self).rewrites() == old(self).rewrites(),
            final(self).transforms() == old(self).transforms(),
            final(self).catch() == old(self).catch(),
    {
        let ghost s0 = self.packet_triggers();
        let mut kept: Vec<ClipPacketTrigger> = Vec::new();
        let mut gone: Vec<ClipPacketTrigger> = Vec::new();
        let mut i: usize = 0;
        while i < self.clip.packet_triggers.len()
            invariant
                i <= self.clip.packet_triggers@.len(),
                s0 == self.packet_triggers(),
                s0.len() == self.clip.packet_triggers@.len(),
                kept@.map_values(|t: ClipPacketTrigger| packet_view(t)) == select(s0.take(i as int), passing()),
                gone@.map_values(|t: ClipPacketTrigger| packet_view(t)) == select(s0.take(i as int), consuming()),
            decreases self.clip.packet_triggers@.len() - i,
        {
            proof {
                assert(s0.take(i as int + 1).drop_last() =~= s0.take(i as int));
                assert(s0[i as int] == packet_view(self.clip.packet_triggers@[i as int]));
                assert(s0.take(i as int + 1).last() == s0[i as int]);
            }
            let c = self.clip.packet_triggers[i].clone();
            if c.consume {
                let ghost before = gone@;
                gone.push(c);
                assert(gone@.map_values(|t: ClipPacketTrigger| packet_view(t)) =~= before.map_values(
                    |t: ClipPacketTrigger| packet_view(t),
                ).push(packet_view(c)));
            } else {
                let ghost before = kept@;
                kept.push(c);
                assert(kept@.map_values(|t: ClipPacketTrigger| packet_view(t)) =~= before.map_values(
                    |t: ClipPacketTrigger| packet_view(t),
                ).push(packet_view(c)));
            }
            i = i + 1;
        }
        assert(s0.take(s0.len() as int) =~= s0);
        self.clip.packet_triggers = kept;
        gone
    }

    /// The frames that rebuild the held clip settings and triggers on a box holding none.
    pub fn clip_config_frames(&self) -> (c: ClipConfig)
        requires
            self.wf(),
        ensures
            c.settings@ == settings_frames(self.clip_settings(), CLIP_SET_COUNT as nat),
            c.triggers@ == self.clip_trigger_rows().map_values(|r: (u64, ClipTrigger)| r.1),
            c.packet_triggers@.map_values(|t: ClipPacketTrigger| packet_view(t)) == self.packet_triggers(),
    {
        let mut settings: Vec<(u8, u8)> = Vec::new();
        let mut id: usize = 0;
        while id < CLIP_SET_COUNT
            invariant
                id <= CLIP_SET_COUNT,
                self.clip.settings@.len() == CLIP_SET_COUNT,
                settings@ == settings_frames(self.clip.settings@, id as nat),
            decreases CLIP_SET_COUNT - id,
        {
            let v = self.clip.settings[id];
            if v != 0 {
                settings.push((id as u8, v));
            }
            id = id + 1;
        }
        let mut triggers: Vec<ClipTrigger> = Vec::new();
        let mut i: usize = 0;
        while i < self.clip.triggers.len()
            invariant
                i <= self.clip.triggers.rows().len(),
                triggers@ == self.clip.triggers.rows().take(i as int).map_values(|r: (u64, ClipTrigger)| r.1),
            decreases self.clip.triggers.rows().len() - i,
        {
            let (_, t) = self.clip.triggers.row(i);
            triggers.push(t);
            assert(self.clip.triggers.rows().take(i as int + 1).map_values(|r: (u64, ClipTrigger)| r.1)
                =~= self.clip.triggers.rows().take(i as int).map_values(|r: (u64, ClipTrigger)| r.1).push(t));
            i = i + 1;
        }
        assert(self.clip.triggers.rows().take(self.clip.triggers.rows().len() as int) =~= self.clip.triggers.rows());
        let packet_triggers = copy_packets(&self.clip.packet_triggers);
        ClipConfig { settings, triggers, packet_triggers }
    }

    /// Drop every clip trigger, input and packet alike.
    pub fn clip_triggers_clear(&mut self)
        requires
            old(self).wf(),
        ensures
            final(self).wf(),
            final(self).clip_triggers() == Map::<u64, ClipTrigger>::empty(),
            final(self).packet_triggers() == Seq::<PacketTriggerSpec>::empty(),
            final(self).clip_settings() == old(self).clip_settings(),
            final(self).clip_loaded_flag() == old(self).clip_loaded_flag(),
            final(self).ring_gen() == old(self).ring_gen(),
            final(self).overrides() == old(self).overrides(),
            final(self).locks() == old(self).locks(),
            final(self).rewrites() == old(self).rewrites(),
            final(self).transforms() == old(self).transforms(),
            final(self).catch() == old(self).catch(),
    {
        self.clip.triggers.clear();
        self.clip.packet_triggers.clear();
        assert(self.packet_triggers() =~= Seq::<PacketTriggerSpec>::empty());
    }

    /// Adopt what the box reports it holds, read back after a reconnect: a ring that held the clip
    /// and is now empty is a lost clip.
    pub fn clip_adopt(&mut self, status: &ClipStatus, settings: &ClipSettings)
        requires
            old(self).wf(),
            old(self).ring_gen() < u64::MAX,
        ensures
            final(self).wf(),
            final(self).clip_loaded_flag() == ring_holds_spec(*status),
            final(self).clip_ring() == ring_holds_spec(*status),
            final(self).ring_gen() == old(self).ring_gen() + 1,
            final(self).clip_lost_flag() == (old(self).clip_lost_flag() || (old(self).clip_ring()
                && !ring_holds_spec(*status))),
            final(self).clip_settings() == seq![
                scope_spec(settings.autolock@),
                if settings.loop_ { 1u8 } else { 0u8 },
                if settings.retain { 1u8 } else { 0u8 },
                if settings.ride { 1u8 } else { 0u8 },
            ],
            final(self).clip_triggers() == triggers_map(settings.triggers@),
            final(self).packet_triggers() == settings.packet_triggers@.map_values(
                |t: ClipPacketTrigger| packet_view(t),
            ),
            final(self).overrides() == old(self).overrides(),
            final(self).locks() == old(self).locks(),
            final(self).rewrites() == old(self).rewrites(),
            final(self).transforms() == old(self).transforms(),
            final(self).catch() == old(self).catch(),
    {
        let mut scalars: Vec<u8> = Vec::new();
        scalars.push(blanket_scope(settings.autolock.as_slice()));
        scalars.push(if settings.loop_ { 1 } else { 0 });
        scalars.push(if settings.retain { 1 } else { 0 });
        scalars.push(if settings.ride { 1 } else { 0 });
        let loaded = ring_holds(status);
        let mut triggers: KeyedRows<ClipTrigger> = KeyedRows::new();
        let mut i: usize = 0;
        while i < settings.triggers.len()
            invariant
                i <= settings.triggers@.len(),
                triggers.wf(),
                triggers.map() == triggers_map(settings.triggers@.take(i as int)),
            decreases settings.triggers@.len() - i,
        {
            let t = settings.triggers[i];
            assert(settings.triggers@.take(i as int + 1).drop_last() =~= settings.triggers@.take(i as int));
            triggers.insert(trigger_key(&t), t);
            i = i + 1;
        }
        assert(settings.triggers@.take(settings.triggers@.len() as int) =~= settings.triggers@);
        let packet_triggers = copy_packets(&settings.packet_triggers);
        let lost = self.clip.lost || (self.clip.ring && !loaded);
        self.clip = ClipHeld {
            loaded,
            ring: loaded,
            ring_gen: self.clip.ring_gen + 1,
            lost,
            settings: scalars,
            triggers,
            packet_triggers,
        };
        assert(self.clip_settings() =~= seq![
            scope_spec(settings.autolock@),
            if settings.loop_ { 1u8 } else { 0u8 },
            if settings.retain { 1u8 } else { 0u8 },
            if settings.ride { 1u8 } else { 0u8 },
        ]);
    }

    /// Drop everything the box's reset drops: overrides, locks, rewrite rules, transforms and the
    /// clip configuration. The catch table is torn down with its subscriptions, and the declared
    /// button count is the box's, so both stay.
    pub fn clear(&mut self)
        requires
            old(self).wf(),
        ensures
            final(self).wf(),
            final(self).overrides() == Map::<u64, Override>::empty(),
            final(self).locks() == Map::<u64, Slots>::empty(),
            final(self).media_order() == Seq::<u16>::empty(),
            final(self).rewrites() == Seq::<RewriteSpec>::empty(),
            final(self).transforms() == Seq::<StoredTransform>::empty(),
            final(self).clip_is_default(),
            final(self).catch() == old(self).catch(),
            final(self).catch_rows() == old(self).catch_rows(),
            final(self).declared_buttons() == old(self).declared_buttons(),
    {
        self.overrides.clear();
        self.locks.clear();
        self.media_order.clear();
        self.rewrites.clear();
        self.transforms.clear();
        self.clip = ClipHeld::new();
        assert(self.rewrites() =~= Seq::<RewriteSpec>::empty());
        assert(self.media_order@ =~= Seq::<u16>::empty());
    }

    /// Whether there is nothing for the keepalive to keep: no catch entry, override, lock, rewrite
    /// rule, transform, loaded clip, setting off its default or trigger.
    pub fn is_idle(&self) -> (r: bool)
        requires
            self.wf(),
        ensures
            r == (self.catch() == Map::<u64, CatchFilter>::empty() && self.overrides() == Map::<
                u64,
                Override,
            >::empty() && self.locks() == Map::<u64, Slots>::empty() && self.rewrites().len() == 0
                && self.transforms().len() == 0 && !self.clip_loaded_flag() && all_zero(
                self.clip_settings(),
            ) && self.clip_triggers() == Map::<u64, ClipTrigger>::empty()
                && self.packet_triggers().len() == 0),
    {
        let mut zero = true;
        let mut i: usize = 0;
        while i < self.clip.settings.len()
            invariant
                i <= self.clip.settings@.len(),
                zero == all_zero(self.clip.settings@.take(i as int)),
            decreases self.clip.settings@.len() - i,
        {
            if self.clip.settings[i] != 0 {
                zero = false;
                assert(self.clip.settings@.take(i as int + 1)[i as int] != 0);
            } else {
                assert forall|j: int| 0 <= j < i + 1 implies #[trigger] self.clip.settings@.take(i as int + 1)[j] == 0 <== all_zero(self.clip.settings@.take(i as int)) by {
                    if j < i {
                        assert(self.clip.settings@.take(i as int + 1)[j] == self.clip.settings@.take(i as int)[j]);
                    }
                }
                assert(!all_zero(self.clip.settings@.take(i as int)) ==> !all_zero(self.clip.settings@.take(i as int + 1))) by {
                    if !all_zero(self.clip.settings@.take(i as int)) {
                        let j = choose|j: int| 0 <= j < i && self.clip.settings@.take(i as int)[j] != 0;
                        assert(self.clip.settings@.take(i as int + 1)[j] != 0);
                    }
                }
            }
            i = i + 1;
        }
        assert(self.clip.settings@.take(self.clip.settings@.len() as int) =~= self.clip.settings@);
        self.catch.is_empty() && self.overrides.is_empty() && self.locks.is_empty()
            && self.rewrites.len() == 0 && self.transforms.len() == 0 && !self.clip.loaded && zero
            && self.clip.triggers.is_empty() && self.clip.packet_triggers.len() == 0
    }
}

/// After a clear there is nothing for the keepalive to keep but the catch table.
pub proof fn lemma_clear_is_idle_but_catch(s: DesiredState)
    requires
        s.wf(),
        s.overrides() == Map::<u64, Override>::empty(),
        s.locks() == Map::<u64, Slots>::empty(),
        s.rewrites() == Seq::<RewriteSpec>::empty(),
        s.transforms() == Seq::<StoredTransform>::empty(),
        s.clip_is_default(),
    ensures
        !s.clip_loaded_flag(),
        all_zero(s.clip_settings()),
        s.clip_triggers() == Map::<u64, ClipTrigger>::empty(),
        s.packet_triggers().len() == 0,
{
}

/// A whole-table clear whose frame never went out is rolled back exactly: putting back, in order,
/// the rules and transforms held before the clear rebuilds both tables.
pub proof fn lemma_clear_rollback_restores(d: DesiredState)
    requires
        d.wf(),
    ensures
        rewrites_applied(Seq::empty(), d.rewrites()) == d.rewrites(),
        transforms_applied(Seq::empty(), d.transforms()) == d.transforms(),
{
    lemma_rewrites_reapplied(d.rewrites());
    lemma_transforms_reapplied(d.transforms());
}

/// No held lock row passes on every slot.
pub open spec fn no_clear_rows(m: Map<u64, Slots>) -> bool {
    forall|k: u64| #[trigger] m.dom().contains(k) ==> !slots_clear(m[k])
}

/// A held button blanket stands alone: no single-button row beside it.
pub open spec fn blanket_alone(m: Map<u64, Slots>) -> bool {
    m.dom().contains(button_blanket_key()) ==> forall|k: u64| #[trigger]
        m.dom().contains(k) ==> !is_button_row(k)
}

/// A lock table kept tidy: no row that passes everywhere, and no button blanket beside single-button
/// rows.
pub open spec fn locks_tidy(m: Map<u64, Slots>) -> bool {
    no_clear_rows(m) && blanket_alone(m)
}

/// Writing one row keeps rows that pass everywhere out of the table.
proof fn lemma_write_row_no_clear(m: Map<u64, Slots>, k: u64, dir: u8, scale: i16)
    requires
        no_clear_rows(m),
    ensures
        no_clear_rows(write_row_map(m, k, dir, scale)),
        forall|j: u64| j != k ==> (#[trigger] write_row_map(m, k, dir, scale).dom().contains(j)
            == m.dom().contains(j)),
{
}

/// Every lock keeps the table tidy: a row left passing everywhere is dropped, a button blanket
/// replaces every single-button row, and a single button under a held blanket first expands the
/// blanket onto the buttons and drops it.
pub proof fn lemma_apply_lock_keeps_tidy(
    m: Map<u64, Slots>,
    count: u16,
    class: u8,
    id: u16,
    dir: u8,
    scale: i16,
)
    requires
        locks_tidy(m),
    ensures
        locks_tidy(locks_after(m, count, class, id, dir, scale)),
{
    let sc = norm_scale(class, scale);
    let k = row_key(class, id);
    let bk = button_blanket_key();
    lemma_row_key(k, class, id);
    lemma_row_key(bk, LOCK_CLS_BTN, LOCK_ID_ALL);
    let r = locks_after(m, count, class, id, dir, scale);
    if class == LOCK_CLS_BTN && id == LOCK_ID_ALL {
        let w = without_button_rows(m);
        assert(no_clear_rows(w));
        lemma_write_row_no_clear(w, k, dir, sc);
        assert forall|j: u64| #[trigger] r.dom().contains(j) implies !is_button_row(j) by {
            if j != k {
                assert(w.dom().contains(j));
            }
        }
    } else if class == LOCK_CLS_BTN && m.dom().contains(bk) {
        let b = burst_rows(m, count);
        let p = burst_partial(m, m[bk], count as int);
        assert(!slots_clear(m[bk]));
        assert(b == p.remove(bk));
        assert(no_clear_rows(b)) by {
            assert forall|j: u64| #[trigger] b.dom().contains(j) implies !slots_clear(b[j]) by {
                if m.dom().contains(j) {
                    assert(b[j] == m[j]);
                } else {
                    assert(b[j] == m[bk]);
                }
            }
        }
        lemma_write_row_no_clear(b, k, dir, sc);
        assert(!b.dom().contains(bk));
        assert(k != bk);
        assert(!r.dom().contains(bk));
    } else {
        lemma_write_row_no_clear(m, k, dir, sc);
        if r.dom().contains(bk) {
            assert(k != bk);
            assert(m.dom().contains(bk));
            assert forall|j: u64| #[trigger] r.dom().contains(j) implies !is_button_row(j) by {
                if j != k {
                    assert(m.dom().contains(j));
                } else {
                    lemma_key_parts(j);
                }
            }
        }
    }
}

/// What a valid desired state keeps of its tables: one rule per key, one transform per key, and a
/// lock table with row keys and a media order that matches it.
pub proof fn lemma_wf_parts(d: DesiredState)
    requires
        d.wf(),
    ensures
        unique_keys(d.rewrites(), rewrite_key_fn()),
        unique_keys(d.transforms(), transform_key_fn()),
        lock_table_ok(d.locks(), d.media_order()),
{
}

} // verus!
