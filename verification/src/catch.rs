//! Catch subscriptions: the filters a program subscribes with, the table the box holds, and how the
//! host folds many subscriptions onto that one table.
//!
//! The box keeps one entry per `(class, id, direction)`; two subscribers at one address would
//! overwrite each other, so the host collapses every subscription onto that key, keeping the widest
//! capture, and sends the box only the difference between the table it holds and the one it should.

use crate::error::{Error, RelativeTo};
use crate::keyed::{has_key, lemma_map_of_row, lemma_rows_len, KeyedRows};
use crate::opcode::{
    CATCH_CLS_ANY, CATCH_CLS_AXIS, CATCH_CLS_BTN, CATCH_CLS_BUS, CATCH_CLS_CONTROL, CATCH_CLS_EMIT,
    CATCH_CLS_HID_IN, CATCH_CLS_HID_OUT, CATCH_CLS_KEY, CATCH_CLS_MEDIA, CATCH_CLS_VEND_BULK,
    CATCH_CLS_VEND_INTR, CATCH_ID_ANY, CATCH_MAX_ENTRIES, LOCK_DIR_BOTH,
};
use crate::types::{direction_admits, direction_byte, Class, Direction};
use vstd::prelude::*;

verus! {

/// What a catch entry addresses: an input class, or a class of traffic the box carries.
#[derive(Clone, Copy, Debug, PartialEq, Eq, Hash, Structural)]
pub enum CatchClass {
    /// Relative axes (motion).
    Axis,
    /// Mouse buttons.
    Button,
    /// Keyboard keys.
    Key,
    /// Media (Consumer) usages.
    Media,
    /// HID reports to the game PC.
    HidIn,
    /// HID reports to the real device.
    HidOut,
    /// Vendor interrupt endpoints.
    VendorInterrupt,
    /// Vendor bulk endpoints.
    VendorBulk,
    /// Proxied control transfers.
    Control,
    /// The bytes the clone emits.
    Emit,
    /// Bus lifecycle.
    Bus,
}

/// The wire byte of a [`CatchClass`].
pub open spec fn catch_class_byte(c: CatchClass) -> u8 {
    match c {
        CatchClass::Axis => CATCH_CLS_AXIS,
        CatchClass::Button => CATCH_CLS_BTN,
        CatchClass::Key => CATCH_CLS_KEY,
        CatchClass::Media => CATCH_CLS_MEDIA,
        CatchClass::HidIn => CATCH_CLS_HID_IN,
        CatchClass::HidOut => CATCH_CLS_HID_OUT,
        CatchClass::VendorInterrupt => CATCH_CLS_VEND_INTR,
        CatchClass::VendorBulk => CATCH_CLS_VEND_BULK,
        CatchClass::Control => CATCH_CLS_CONTROL,
        CatchClass::Emit => CATCH_CLS_EMIT,
        CatchClass::Bus => CATCH_CLS_BUS,
    }
}

/// The input classes: what arrives decoded, with no packet behind it.
pub open spec fn is_input_class(c: CatchClass) -> bool {
    c == CatchClass::Axis || c == CatchClass::Button || c == CatchClass::Key || c
        == CatchClass::Media
}

/// The catch class of a momentary usage class.
pub open spec fn catch_class_of(c: Class) -> CatchClass {
    match c {
        Class::Button => CatchClass::Button,
        Class::Key => CatchClass::Key,
        Class::Media => CatchClass::Media,
    }
}

impl CatchClass {
    /// The wire byte.
    pub fn as_u8(self) -> (b: u8)
        ensures
            b == catch_class_byte(self),
    {
        match self {
            CatchClass::Axis => CATCH_CLS_AXIS,
            CatchClass::Button => CATCH_CLS_BTN,
            CatchClass::Key => CATCH_CLS_KEY,
            CatchClass::Media => CATCH_CLS_MEDIA,
            CatchClass::HidIn => CATCH_CLS_HID_IN,
            CatchClass::HidOut => CATCH_CLS_HID_OUT,
            CatchClass::VendorInterrupt => CATCH_CLS_VEND_INTR,
            CatchClass::VendorBulk => CATCH_CLS_VEND_BULK,
            CatchClass::Control => CATCH_CLS_CONTROL,
            CatchClass::Emit => CATCH_CLS_EMIT,
            CatchClass::Bus => CATCH_CLS_BUS,
        }
    }

    /// Whether this class arrives decoded (input) rather than as packets (traffic).
    pub fn is_input(self) -> (r: bool)
        ensures
            r == is_input_class(self),
    {
        matches!(self, CatchClass::Axis | CatchClass::Button | CatchClass::Key | CatchClass::Media)
    }

    /// The catch class of a momentary usage class.
    pub fn of_class(c: Class) -> (r: CatchClass)
        ensures
            r == catch_class_of(c),
    {
        match c {
            Class::Button => CatchClass::Button,
            Class::Key => CatchClass::Key,
            Class::Media => CatchClass::Media,
        }
    }
}

/// How many bytes of each packet an entry keeps.
#[derive(Clone, Copy, Debug, PartialEq, Eq, Hash, Structural)]
pub enum Capture {
    /// The whole packet (the default).
    Whole,
    /// The first `n` bytes.
    First(u8),
}

/// The capture byte on the wire: 0 keeps the whole packet, `n` the first `n` bytes.
pub open spec fn capture_byte(c: Capture) -> u8 {
    match c {
        Capture::Whole => 0,
        Capture::First(n) => n,
    }
}

/// How much a capture keeps, for ordering: the whole packet outranks any prefix.
pub open spec fn capture_rank(c: Capture) -> int {
    match c {
        Capture::Whole => 256,
        Capture::First(n) => if n == 0 { 256 } else { n as int },
    }
}

/// The wider of two captures; on a tie, the first.
pub open spec fn capture_widest(a: Capture, b: Capture) -> Capture {
    if capture_rank(b) > capture_rank(a) {
        b
    } else {
        a
    }
}

impl Capture {
    /// The wire byte.
    pub fn as_u8(self) -> (b: u8)
        ensures
            b == capture_byte(self),
    {
        match self {
            Capture::Whole => 0,
            Capture::First(n) => n,
        }
    }

    /// The capture that keeps at least what either keeps.
    pub fn widest(self, other: Capture) -> (r: Capture)
        ensures
            r == capture_widest(self, other),
    {
        let ra: u16 = match self {
            Capture::Whole => 256,
            Capture::First(n) => if n == 0 { 256 } else { n as u16 },
        };
        let rb: u16 = match other {
            Capture::Whole => 256,
            Capture::First(n) => if n == 0 { 256 } else { n as u16 },
        };
        if rb > ra {
            other
        } else {
            self
        }
    }
}

/// One catch subscription entry: a class (or every class), an id (or every id), a direction and a
/// capture.
#[derive(Clone, Copy, Debug, PartialEq, Eq, Hash, Structural)]
pub struct CatchFilter {
    /// The class addressed; `None` is every class.
    pub class: Option<CatchClass>,
    /// The id addressed; `None` is every id.
    pub id: Option<u16>,
    /// The edge or flow addressed.
    pub direction: Direction,
    /// How much of each packet is kept.
    pub capture: Capture,
}

/// The class byte a filter carries on the wire.
pub open spec fn filter_class_byte(f: CatchFilter) -> u8 {
    match f.class {
        Some(c) => catch_class_byte(c),
        None => CATCH_CLS_ANY,
    }
}

/// The id a filter carries on the wire.
pub open spec fn filter_id_wire(f: CatchFilter) -> u16 {
    match f.id {
        Some(i) => i,
        None => CATCH_ID_ANY,
    }
}

/// The box's table key of a filter, `(class, id, direction)` packed so that the integer order is the
/// tuple order.
pub open spec fn filter_key(f: CatchFilter) -> u64 {
    ((filter_class_byte(f) as u64) * 0x1000000 + (filter_id_wire(f) as u64) * 0x100 + (
    direction_byte(f.direction) as u64)) as u64
}

/// Whether a filter takes an event of `class`, `id` and `dir`.
pub open spec fn filter_matches(f: CatchFilter, class: CatchClass, id: u16, dir: Direction) -> bool {
    (f.class is None || f.class == Some(class)) && (f.id is None || f.id == Some(id))
        && direction_admits(f.direction, dir)
}

impl CatchFilter {
    /// Every class, every id, both directions, whole packets.
    pub fn everything() -> (f: CatchFilter)
        ensures
            f == (CatchFilter {
                class: None,
                id: None,
                direction: Direction::Both,
                capture: Capture::Whole,
            }),
    {
        CatchFilter { class: None, id: None, direction: Direction::Both, capture: Capture::Whole }
    }

    /// Every id of one class, both directions, whole packets.
    pub fn class_only(class: CatchClass) -> (f: CatchFilter)
        ensures
            f == (CatchFilter {
                class: Some(class),
                id: None,
                direction: Direction::Both,
                capture: Capture::Whole,
            }),
    {
        CatchFilter { class: Some(class), id: None, direction: Direction::Both, capture: Capture::Whole }
    }

    /// One id of one class (an endpoint, a usage), both directions, whole packets.
    pub fn traffic(class: CatchClass, id: u16) -> (f: CatchFilter)
        ensures
            f == (CatchFilter {
                class: Some(class),
                id: Some(id),
                direction: Direction::Both,
                capture: Capture::Whole,
            }),
    {
        CatchFilter { class: Some(class), id: Some(id), direction: Direction::Both, capture: Capture::Whole }
    }

    /// This filter with another capture.
    pub fn with_capture(self, capture: Capture) -> (f: CatchFilter)
        ensures
            f == (CatchFilter { capture, ..self }),
    {
        CatchFilter { capture, ..self }
    }

    /// This filter with another direction.
    pub fn with_direction(self, direction: Direction) -> (f: CatchFilter)
        ensures
            f == (CatchFilter { direction, ..self }),
    {
        CatchFilter { direction, ..self }
    }

    /// The `(class, id)` the wire carries.
    pub fn wire(self) -> (r: (u8, u16))
        ensures
            r == (filter_class_byte(self), filter_id_wire(self)),
    {
        let class = match self.class {
            Some(c) => c.as_u8(),
            None => CATCH_CLS_ANY,
        };
        let id = match self.id {
            Some(i) => i,
            None => CATCH_ID_ANY,
        };
        (class, id)
    }

    /// The box's table key.
    pub fn key(self) -> (k: u64)
        ensures
            k == filter_key(self),
    {
        let (class, id) = self.wire();
        (class as u64) * 0x1000000 + (id as u64) * 0x100 + (self.direction.as_u8() as u64)
    }

    /// Whether this filter takes an event of `class`, `id` and `dir`.
    pub fn matches(self, class: CatchClass, id: u16, dir: Direction) -> (r: bool)
        ensures
            r == filter_matches(self, class, id, dir),
    {
        let class_ok = match self.class {
            None => true,
            Some(c) => c == class,
        };
        let id_ok = match self.id {
            None => true,
            Some(i) => i == id,
        };
        class_ok && id_ok && self.direction.admits(dir)
    }

    /// Whether this filter addresses `class` at all, whatever id it names: a snapshot of a class's
    /// state routes on class alone.
    pub fn matches_class_only(self, class: CatchClass) -> (r: bool)
        ensures
            r == (self.class is None || self.class == Some(class)),
    {
        match self.class {
            None => true,
            Some(c) => c == class,
        }
    }
}

/// The box's catch table as the host holds it: one filter per `(class, id, direction)`.
pub type FilterSet = KeyedRows<CatchFilter>;

/// Whether every filter sits under its own key.
pub open spec fn filters_keyed(m: Map<u64, CatchFilter>) -> bool {
    forall|k: u64| #[trigger] m.dom().contains(k) ==> filter_key(m[k]) == k
}

/// Whether a capture means anything on a filter: an input class arrives decoded, with no packet.
pub open spec fn capture_meaningful(f: CatchFilter) -> bool {
    match f.class {
        Some(c) => !is_input_class(c) || f.capture == Capture::Whole,
        None => true,
    }
}

/// Filters folded onto one entry per key, keeping the widest capture and otherwise the first
/// filter at each key.
pub open spec fn collapse_spec(s: Seq<CatchFilter>) -> Map<u64, CatchFilter>
    decreases s.len(),
{
    if s.len() == 0 {
        Map::empty()
    } else {
        let m = collapse_spec(s.drop_last());
        let f = s.last();
        let k = filter_key(f);
        if m.dom().contains(k) {
            m.insert(k, CatchFilter { capture: capture_widest(m[k].capture, f.capture), ..m[k] })
        } else {
            m.insert(k, f)
        }
    }
}

/// Whether `o` addresses what `f` does and is no more specific, so an event resolving to `f` is one
/// `o` asked for. Direction ranks in specificity only between entries at one address.
pub open spec fn covers_spec(o: CatchFilter, f: CatchFilter) -> bool {
    let class_ok = o.class is None || o.class == f.class;
    let id_ok = o.id is None || o.id == f.id;
    class_ok && id_ok && if o.class == f.class && o.id == f.id {
        o.direction == Direction::Both
    } else {
        direction_admits(o.direction, f.direction)
    }
}

/// The capture `f` needs to satisfy every filter in `all` that covers it.
pub open spec fn widen_cap(all: Seq<CatchFilter>, f: CatchFilter) -> Capture
    decreases all.len(),
{
    if all.len() == 0 {
        f.capture
    } else {
        let acc = widen_cap(all.drop_last(), f);
        if covers_spec(all.last(), f) {
            capture_widest(acc, all.last().capture)
        } else {
            acc
        }
    }
}

/// Every entry's capture widened to satisfy every filter covering it.
pub open spec fn widened(m: Map<u64, CatchFilter>, all: Seq<CatchFilter>) -> Map<u64, CatchFilter> {
    Map::new(
        |k: u64| m.dom().contains(k),
        |k: u64| CatchFilter { capture: widen_cap(all, m[k]), ..m[k] },
    )
}

/// The key of `f`'s address with direction `d`.
pub open spec fn key_at_dir(f: CatchFilter, d: Direction) -> u64 {
    filter_key(CatchFilter { direction: d, ..f })
}

/// Whether `f`'s address holds both a positive and a negative entry.
pub open spec fn has_pair(m: Map<u64, CatchFilter>, f: CatchFilter) -> bool {
    m.dom().contains(key_at_dir(f, Direction::Positive)) && m.dom().contains(
        key_at_dir(f, Direction::Negative),
    )
}

/// The one `Both` entry a positive/negative pair at `f`'s address becomes: the positive entry
/// addressed `Both`, with the widest capture of the pair and of any `Both` entry there.
pub open spec fn merged_pair(m: Map<u64, CatchFilter>, f: CatchFilter) -> CatchFilter {
    let pos = m[key_at_dir(f, Direction::Positive)];
    let neg = m[key_at_dir(f, Direction::Negative)];
    let c = capture_widest(pos.capture, neg.capture);
    let both = key_at_dir(f, Direction::Both);
    let c2 = if m.dom().contains(both) {
        capture_widest(c, m[both].capture)
    } else {
        c
    };
    CatchFilter { direction: Direction::Both, capture: c2, ..pos }
}

/// Whether an entry is one a pair merge replaces: a signed or `Both` entry at an address holding
/// both signs.
pub open spec fn merged_away(m: Map<u64, CatchFilter>, f: CatchFilter) -> bool {
    has_pair(m, f) && (f.direction == Direction::Positive || f.direction == Direction::Negative
        || f.direction == Direction::Both)
}

/// Whether `k` is the `Both` key a pair merge writes: the key just under a positive entry whose
/// address holds both signs.
pub open spec fn merge_target(m: Map<u64, CatchFilter>, k: u64) -> bool {
    k < u64::MAX && m.dom().contains((k + 1) as u64) && m[(k + 1) as u64].direction
        == Direction::Positive && has_pair(m, m[(k + 1) as u64])
}

/// The box raises bus events addressed `Both`, which match an entry of any direction, so opposite
/// signed entries at one address tie on rank and the box breaks the tie by registration order. The
/// pair collapses to one `Both` entry instead, at no extra traffic.
pub open spec fn siblings_merged(m: Map<u64, CatchFilter>) -> Map<u64, CatchFilter> {
    Map::new(
        |k: u64| (m.dom().contains(k) && !merged_away(m, m[k])) || merge_target(m, k),
        |k: u64|
            if merge_target(m, k) {
                merged_pair(m, m[(k + 1) as u64])
            } else {
                m[k]
            },
    )
}

/// The table every subscription together needs: collapsed, each capture widened to satisfy every
/// filter covering it, and opposite signed pairs merged.
pub open spec fn effective_spec(all: Seq<CatchFilter>) -> Map<u64, CatchFilter> {
    siblings_merged(widened(collapse_spec(all), all))
}

/// Fold filters onto one entry per key, keeping the widest capture.
pub fn collapse(filters: &Vec<CatchFilter>) -> (r: FilterSet)
    ensures
        r.wf(),
        r.map() == collapse_spec(filters@),
        filters_keyed(r.map()),
{
    let mut out: FilterSet = KeyedRows::new();
    let mut i: usize = 0;
    while i < filters.len()
        invariant
            i <= filters@.len(),
            out.wf(),
            out.map() == collapse_spec(filters@.take(i as int)),
            filters_keyed(out.map()),
        decreases filters@.len() - i,
    {
        let f = filters[i];
        let k = f.key();
        proof {
            assert(filters@.take(i as int + 1).drop_last() =~= filters@.take(i as int));
            assert(filters@.take(i as int + 1).last() == f);
        }
        match out.get(k) {
            Some(e) => {
                out.insert(k, e.with_capture(e.capture.widest(f.capture)));
            },
            None => {
                out.insert(k, f);
            },
        }
        i = i + 1;
    }
    assert(filters@.take(filters@.len() as int) =~= filters@);
    out
}

/// Whether `o` addresses what `f` does and is no more specific.
pub fn covers(o: CatchFilter, f: CatchFilter) -> (r: bool)
    ensures
        r == covers_spec(o, f),
{
    let class_ok = match o.class {
        None => true,
        Some(oc) => match f.class {
            Some(fc) => oc == fc,
            None => false,
        },
    };
    let id_ok = match o.id {
        None => true,
        Some(oi) => match f.id {
            Some(fi) => oi == fi,
            None => false,
        },
    };
    if !(class_ok && id_ok) {
        return false;
    }
    if o.class == f.class && o.id == f.id {
        o.direction == Direction::Both
    } else {
        o.direction.admits(f.direction)
    }
}

/// The capture `f` needs to satisfy every filter in `all` that covers it.
fn widen_capture(all: &Vec<CatchFilter>, f: CatchFilter) -> (c: Capture)
    ensures
        c == widen_cap(all@, f),
{
    let mut acc = f.capture;
    let mut i: usize = 0;
    while i < all.len()
        invariant
            i <= all@.len(),
            acc == widen_cap(all@.take(i as int), f),
        decreases all@.len() - i,
    {
        proof {
            assert(all@.take(i as int + 1).drop_last() =~= all@.take(i as int));
            assert(all@.take(i as int + 1).last() == all@[i as int]);
        }
        if covers(all[i], f) {
            acc = acc.widest(all[i].capture);
        }
        i = i + 1;
    }
    assert(all@.take(all@.len() as int) =~= all@);
    acc
}

/// Widen every entry's capture to satisfy every filter in `all` covering it.
fn widen_all(set: &mut FilterSet, all: &Vec<CatchFilter>)
    requires
        old(set).wf(),
        filters_keyed(old(set).map()),
    ensures
        final(set).wf(),
        final(set).map() == widened(old(set).map(), all@),
        filters_keyed(final(set).map()),
{
    let ghost m0 = set.map();
    let ghost rows0 = set.rows();
    let mut i: usize = 0;
    while i < set.len()
        invariant
            set.wf(),
            i <= rows0.len(),
            set.rows().len() == rows0.len(),
            forall|j: int| 0 <= j < rows0.len() ==> #[trigger] set.rows()[j].0 == rows0[j].0,
            forall|j: int| i <= j < rows0.len() ==> #[trigger] set.rows()[j] == rows0[j],
            crate::keyed::sorted_keys(rows0),
            m0 == crate::keyed::map_of(rows0),
            filters_keyed(m0),
            set.map() == Map::new(
                |k: u64| m0.dom().contains(k),
                |k: u64|
                    if has_key(rows0.take(i as int), k) {
                        CatchFilter { capture: widen_cap(all@, m0[k]), ..m0[k] }
                    } else {
                        m0[k]
                    },
            ),
        decreases rows0.len() - i,
    {
        let (k, f) = set.row(i);
        proof {
            lemma_map_of_row(rows0, i as int);
        }
        let c = widen_capture(all, f);
        let ghost before = set.map();
        set.set_value_at(i, f.with_capture(c));
        proof {
            assert forall|key: u64| #[trigger] has_key(rows0.take(i as int + 1), key) == (has_key(
                rows0.take(i as int),
                key,
            ) || key == k) by {
                crate::keyed::lemma_has_key_take(rows0, i as int, key);
            }
            assert(set.map() =~= Map::new(
                |key: u64| m0.dom().contains(key),
                |key: u64|
                    if has_key(rows0.take(i as int + 1), key) {
                        CatchFilter { capture: widen_cap(all@, m0[key]), ..m0[key] }
                    } else {
                        m0[key]
                    },
            ));
        }
        i = i + 1;
    }
    proof {
        assert(rows0.take(rows0.len() as int) =~= rows0);
        assert(set.map() =~= widened(m0, all@));
    }
}

/// Merge each opposite signed pair at one address into one `Both` entry.
fn merge_siblings(set: &FilterSet) -> (r: FilterSet)
    requires
        set.wf(),
        filters_keyed(set.map()),
    ensures
        r.wf(),
        r.map() == siblings_merged(set.map()),
        filters_keyed(r.map()),
{
    let ghost m = set.map();
    let ghost rows = set.rows();
    let ghost target = siblings_merged(m);
    let mut out: FilterSet = KeyedRows::new();
    let mut i: usize = 0;
    while i < set.len()
        invariant
            set.wf(),
            rows == set.rows(),
            m == set.map(),
            m == crate::keyed::map_of(rows),
            filters_keyed(m),
            target == siblings_merged(m),
            i <= rows.len(),
            out.wf(),
            filters_keyed(out.map()),
            out.map() == Map::new(
                |k: u64|
                    target.dom().contains(k) && has_key(
                        rows.take(i as int),
                        if merge_target(m, k) {
                            (k + 1) as u64
                        } else {
                            k
                        },
                    ),
                |k: u64| target[k],
            ),
        decreases rows.len() - i,
    {
        let (k, f) = set.row(i);
        proof {
            lemma_map_of_row(rows, i as int);
        }
        let pos_k = f.with_direction(Direction::Positive).key();
        let neg_k = f.with_direction(Direction::Negative).key();
        let both_k = f.with_direction(Direction::Both).key();
        let pair = set.contains(pos_k) && set.contains(neg_k);
        proof {
            assert forall|key: u64| #[trigger] has_key(rows.take(i as int + 1), key) == (has_key(
                rows.take(i as int),
                key,
            ) || key == k) by {
                crate::keyed::lemma_has_key_take(rows, i as int, key);
            }
            assert(m[k] == f);
            assert(filter_key(f) == k);
        }
        if !pair || f.direction == Direction::With || f.direction == Direction::Against {
            out.insert(k, f);
            proof {
                assert(!merge_target(m, k)) by {
                    if merge_target(m, k) {
                        let p = m[(k + 1) as u64];
                        assert(filter_key(p) == k + 1);
                    }
                }
                assert(out.map() =~= Map::new(
                    |key: u64|
                        target.dom().contains(key) && has_key(
                            rows.take(i as int + 1),
                            if merge_target(m, key) {
                                (key + 1) as u64
                            } else {
                                key
                            },
                        ),
                    |key: u64| target[key],
                ));
            }
        } else if f.direction == Direction::Positive {
            let pos = match set.get(pos_k) {
                Some(p) => p,
                None => f,
            };
            let neg = match set.get(neg_k) {
                Some(n) => n,
                None => f,
            };
            let c = pos.capture.widest(neg.capture);
            let c2 = match set.get(both_k) {
                Some(b) => c.widest(b.capture),
                None => c,
            };
            let merged = pos.with_direction(Direction::Both).with_capture(c2);
            out.insert(both_k, merged);
            proof {
                assert(both_k + 1 == k);
                assert(merge_target(m, both_k));
                assert(merged == merged_pair(m, f));
                assert(out.map() =~= Map::new(
                    |key: u64|
                        target.dom().contains(key) && has_key(
                            rows.take(i as int + 1),
                            if merge_target(m, key) {
                                (key + 1) as u64
                            } else {
                                key
                            },
                        ),
                    |key: u64| target[key],
                ));
            }
        } else {
            proof {
                assert(out.map() =~= Map::new(
                    |key: u64|
                        target.dom().contains(key) && has_key(
                            rows.take(i as int + 1),
                            if merge_target(m, key) {
                                (key + 1) as u64
                            } else {
                                key
                            },
                        ),
                    |key: u64| target[key],
                )) by {
                    assert forall|key: u64| #[trigger] target.dom().contains(key) implies (if merge_target(m, key) {
                        (key + 1) as u64
                    } else {
                        key
                    }) != k by {
                        if merge_target(m, key) {
                            if key + 1 == k {
                                assert(f.direction == Direction::Positive);
                            }
                        }
                    }
                }
            }
        }
        i = i + 1;
    }
    proof {
        assert forall|key: u64| #[trigger] target.dom().contains(key) implies has_key(
            rows.take(rows.len() as int),
            if merge_target(m, key) {
                (key + 1) as u64
            } else {
                key
            },
        ) by {
            assert(rows.take(rows.len() as int) =~= rows);
            let o = if merge_target(m, key) {
                (key + 1) as u64
            } else {
                key
            };
            assert(m.dom().contains(o));
        }
        assert(out.map() =~= target);
    }
    out
}

/// The table every subscription in `all` together needs.
pub fn effective(all: &Vec<CatchFilter>) -> (r: FilterSet)
    ensures
        r.wf(),
        r.map() == effective_spec(all@),
        filters_keyed(r.map()),
{
    let mut set = collapse(all);
    widen_all(&mut set, all);
    merge_siblings(&set)
}
/// The first position whose filter satisfies `p`, if any.
pub open spec fn find_first(s: Seq<CatchFilter>, p: spec_fn(CatchFilter) -> bool) -> Option<int>
    decreases s.len(),
{
    if s.len() == 0 {
        None
    } else {
        match find_first(s.drop_last(), p) {
            Some(i) => Some(i),
            None => if p(s.last()) {
                Some(s.len() - 1)
            } else {
                None
            },
        }
    }
}

/// A filter addressed with or against the bearing.
pub open spec fn relative_filter() -> spec_fn(CatchFilter) -> bool {
    |f: CatchFilter| crate::types::is_relative(f.direction)
}

/// A filter whose capture means nothing.
pub open spec fn pointless_capture() -> spec_fn(CatchFilter) -> bool {
    |f: CatchFilter| !capture_meaningful(f)
}

/// A filter naming exactly the blanket id, which the wire cannot tell from every id.
pub open spec fn reserved_id() -> spec_fn(CatchFilter) -> bool {
    |f: CatchFilter| f.id == Some(CATCH_ID_ANY)
}

/// The class a filter names, or the axis class for the wildcard (which no refusal below names).
pub open spec fn class_or_axis(f: CatchFilter) -> CatchClass {
    match f.class {
        Some(c) => c,
        None => CatchClass::Axis,
    }
}

/// What a subscription comes to: refused for no filter at all, a bearing-relative direction, a
/// capture on a class with no packet, or an exact subscription to the blanket id (each refusal
/// naming the first filter that earns it); else the filters folded onto one entry per table slot.
pub open spec fn prepare_spec(s: Seq<CatchFilter>) -> Result<Map<u64, CatchFilter>, Error> {
    if s.len() == 0 {
        Err(Error::EmptySubscription)
    } else if let Some(i) = find_first(s, relative_filter()) {
        Err(Error::RelativeDirection { direction: s[i].direction, what: RelativeTo::CatchSubscription })
    } else if let Some(i) = find_first(s, pointless_capture()) {
        Err(Error::CaptureNotApplicable { class: class_or_axis(s[i]) })
    } else if let Some(i) = find_first(s, reserved_id()) {
        Err(Error::ReservedId { class: class_or_axis(s[i]), id: CATCH_ID_ANY })
    } else {
        Ok(collapse_spec(s))
    }
}

/// A position as an integer.
pub open spec fn opt_int(r: Option<usize>) -> Option<int> {
    match r {
        Some(i) => Some(i as int),
        None => None,
    }
}

/// The first position whose filter satisfies the kind of check `which` names.
fn find_first_exec(s: &Vec<CatchFilter>, which: u8) -> (r: Option<usize>)
    requires
        which < 3,
    ensures
        r matches Some(i) ==> i < s@.len(),
        which == 0 ==> opt_int(r) == find_first(s@, relative_filter()),
        which == 1 ==> opt_int(r) == find_first(s@, pointless_capture()),
        which == 2 ==> opt_int(r) == find_first(s@, reserved_id()),
{
    let ghost p = if which == 0 {
        relative_filter()
    } else if which == 1 {
        pointless_capture()
    } else {
        reserved_id()
    };
    let mut i: usize = 0;
    while i < s.len()
        invariant
            i <= s@.len(),
            which < 3,
            p == (if which == 0 {
                relative_filter()
            } else if which == 1 {
                pointless_capture()
            } else {
                reserved_id()
            }),
            find_first(s@.take(i as int), p) is None,
        decreases s@.len() - i,
    {
        let f = s[i];
        let hit = if which == 0 {
            f.direction.is_relative()
        } else if which == 1 {
            match f.class {
                Some(c) => c.is_input() && f.capture != Capture::Whole,
                None => false,
            }
        } else {
            match f.id {
                Some(id) => id == CATCH_ID_ANY,
                None => false,
            }
        };
        proof {
            assert(s@.take(i as int + 1).drop_last() =~= s@.take(i as int));
            assert(s@.take(i as int + 1).last() == f);
            assert(hit == p(f));
        }
        if hit {
            proof {
                lemma_find_first_prefix(s@, p, i as int + 1);
            }
            return Some(i);
        }
        i = i + 1;
    }
    assert(s@.take(s@.len() as int) =~= s@);
    None
}

/// A first match in a prefix is the first match in the whole.
proof fn lemma_find_first_prefix(s: Seq<CatchFilter>, p: spec_fn(CatchFilter) -> bool, n: int)
    requires
        0 <= n <= s.len(),
        find_first(s.take(n), p) is Some,
    ensures
        find_first(s, p) == find_first(s.take(n), p),
    decreases s.len() - n,
{
    if n < s.len() {
        assert(s.take(n + 1).drop_last() =~= s.take(n));
        lemma_find_first_prefix(s, p, n + 1);
    } else {
        assert(s.take(n) =~= s);
    }
}

/// Check a subscription and fold it onto one entry per table slot.
pub fn prepare(filters: &Vec<CatchFilter>) -> (r: Result<FilterSet, Error>)
    ensures
        match (r, prepare_spec(filters@)) {
            (Ok(set), Ok(m)) => set.wf() && set.map() == m && filters_keyed(m),
            (Err(e), Err(e2)) => e == e2,
            _ => false,
        },
{
    if filters.len() == 0 {
        return Err(Error::EmptySubscription);
    }
    if let Some(i) = find_first_exec(filters, 0) {
        return Err(
            Error::RelativeDirection {
                direction: filters[i].direction,
                what: RelativeTo::CatchSubscription,
            },
        );
    }
    if let Some(i) = find_first_exec(filters, 1) {
        let class = match filters[i].class {
            Some(c) => c,
            None => CatchClass::Axis,
        };
        return Err(Error::CaptureNotApplicable { class });
    }
    if let Some(i) = find_first_exec(filters, 2) {
        let class = match filters[i].class {
            Some(c) => c,
            None => CatchClass::Axis,
        };
        return Err(Error::ReservedId { class, id: CATCH_ID_ANY });
    }
    Ok(collapse(filters))
}

/// One catch-table frame: an entry set or cleared at `(class, id, direction)` with a capture.
#[derive(Clone, Copy, Debug, PartialEq, Eq, Hash, Structural)]
pub struct CatchCommand {
    pub class: u8,
    pub id: u16,
    pub direction: u8,
    /// Set (`true`) or clear (`false`).
    pub on: bool,
    pub capture: u8,
}

/// The frame that sets (`on`) or clears an entry.
pub open spec fn entry_command(f: CatchFilter, on: bool) -> CatchCommand {
    CatchCommand {
        class: filter_class_byte(f),
        id: filter_id_wire(f),
        direction: direction_byte(f.direction),
        on,
        capture: capture_byte(f.capture),
    }
}

/// The frame that clears the whole table: the wildcard entry unsubscribed, whatever its direction.
pub open spec fn clear_all_command() -> CatchCommand {
    CatchCommand { class: CATCH_CLS_ANY, id: CATCH_ID_ANY, direction: LOCK_DIR_BOTH, on: false, capture: 0 }
}

/// Whether an every-class entry leaves the table.
pub open spec fn wildcard_removed(prev: Seq<(u64, CatchFilter)>, next: Map<u64, CatchFilter>) -> bool {
    exists|i: int|
        0 <= i < prev.len() && (#[trigger] prev[i]).1.class is None && !next.dom().contains(prev[i].0)
}

/// The clear frame for an entry that leaves, unless the whole-table clear covers it.
pub open spec fn removal(next: Map<u64, CatchFilter>, wr: bool) -> spec_fn((u64, CatchFilter)) -> Option<CatchCommand> {
    |r: (u64, CatchFilter)|
        if next.dom().contains(r.0) || (r.1.class is None && wr) {
            None
        } else {
            Some(entry_command(r.1, false))
        }
}

/// The set frame for an entry that is new or changed its capture (every entry, after a
/// whole-table clear).
pub open spec fn addition(prev: Map<u64, CatchFilter>, wr: bool) -> spec_fn((u64, CatchFilter)) -> Option<CatchCommand> {
    |r: (u64, CatchFilter)|
        if !wr && prev.dom().contains(r.0) && prev[r.0].capture == r.1.capture {
            None
        } else {
            Some(entry_command(r.1, true))
        }
}

/// The frames that move the box from `prev` to `next`: entries that leave are cleared (one
/// whole-table clear when the wildcard leaves), then entries that are new or changed are set.
pub open spec fn sync_spec(prev_rows: Seq<(u64, CatchFilter)>, prev: Map<u64, CatchFilter>, next_rows: Seq<(u64, CatchFilter)>, next: Map<u64, CatchFilter>) -> Seq<CatchCommand> {
    let wr = wildcard_removed(prev_rows, next);
    prev_rows.filter_map(removal(next, wr)) + (if wr {
        seq![clear_all_command()]
    } else {
        Seq::empty()
    }) + next_rows.filter_map(addition(prev, wr))
}

/// The frame that sets or clears an entry.
pub(crate) fn command_for(f: CatchFilter, on: bool) -> (c: CatchCommand)
    ensures
        c == entry_command(f, on),
{
    let (class, id) = f.wire();
    CatchCommand { class, id, direction: f.direction.as_u8(), on, capture: f.capture.as_u8() }
}

/// Only the changes between the table the box holds and the one it should: re-sending the whole
/// table costs a serial write per entry ahead of everything else.
pub fn sync_commands(prev: &FilterSet, next: &FilterSet) -> (v: Vec<CatchCommand>)
    requires
        prev.wf(),
        next.wf(),
    ensures
        v@ == sync_spec(prev.rows(), prev.map(), next.rows(), next.map()),
{
    let ghost pr = prev.rows();
    let ghost nr = next.rows();
    let mut wr = false;
    let mut i: usize = 0;
    while i < prev.len()
        invariant
            prev.wf(),
            next.wf(),
            pr == prev.rows(),
            i <= pr.len(),
            wr == exists|j: int|
                0 <= j < i && (#[trigger] pr[j]).1.class is None && !next.map().dom().contains(pr[j].0),
        decreases pr.len() - i,
    {
        let (k, f) = prev.row(i);
        if f.class.is_none() && !next.contains(k) {
            wr = true;
        }
        i = i + 1;
    }
    let ghost w = wildcard_removed(pr, next.map());
    assert(wr == w);
    let mut out: Vec<CatchCommand> = Vec::new();
    let mut i: usize = 0;
    while i < prev.len()
        invariant
            prev.wf(),
            next.wf(),
            pr == prev.rows(),
            wr == w,
            w == wildcard_removed(pr, next.map()),
            i <= pr.len(),
            out@ == pr.take(i as int).filter_map(removal(next.map(), w)),
        decreases pr.len() - i,
    {
        let (k, f) = prev.row(i);
        proof {
            assert(pr.take(i as int + 1).drop_last() =~= pr.take(i as int));
            assert(pr.take(i as int + 1).last() == (k, f));
        }
        if !(next.contains(k) || (f.class.is_none() && wr)) {
            out.push(command_for(f, false));
        }
        i = i + 1;
    }
    assert(pr.take(pr.len() as int) =~= pr);
    let ghost removals = out@;
    if wr {
        out.push(
            CatchCommand {
                class: CATCH_CLS_ANY,
                id: CATCH_ID_ANY,
                direction: LOCK_DIR_BOTH,
                on: false,
                capture: 0,
            },
        );
    }
    let ghost head = out@;
    assert(head =~= removals + (if w {
        seq![clear_all_command()]
    } else {
        Seq::empty()
    }));
    let mut i: usize = 0;
    while i < next.len()
        invariant
            prev.wf(),
            next.wf(),
            nr == next.rows(),
            wr == w,
            i <= nr.len(),
            out@ == head + nr.take(i as int).filter_map(addition(prev.map(), w)),
        decreases nr.len() - i,
    {
        let (k, f) = next.row(i);
        proof {
            assert(nr.take(i as int + 1).drop_last() =~= nr.take(i as int));
            assert(nr.take(i as int + 1).last() == (k, f));
        }
        let same = if wr {
            false
        } else {
            match prev.get(k) {
                Some(had) => had.capture == f.capture,
                None => false,
            }
        };
        if !same {
            out.push(command_for(f, true));
            assert(out@ =~= head + nr.take(i as int + 1).filter_map(addition(prev.map(), w)));
        }
        i = i + 1;
    }
    assert(nr.take(nr.len() as int) =~= nr);
    out
}

/// What a new subscription does to the box's table.
#[derive(Debug)]
pub struct SubscribePlan {
    /// The table every subscription together needs, to record as held.
    pub effective: FilterSet,
    /// The frames that move the box there.
    pub commands: Vec<CatchCommand>,
}

/// Plan a subscription joining `existing`: the union with every other subscription, refused when
/// it needs more entries than the box's table holds (the box drops entries past its table, so the
/// stream would miss what did not fit), else the frames from the current table to the new one.
pub fn plan_subscribe(existing: &Vec<CatchFilter>, added: &Vec<CatchFilter>) -> (r: Result<SubscribePlan, Error>)
    ensures
        effective_spec(existing@ + added@).dom().finite(),
        r is Err <==> effective_spec(existing@ + added@).dom().len() > CATCH_MAX_ENTRIES,
        r matches Err(e) ==> e == (Error::CatchTableFull {
            needed: effective_spec(existing@ + added@).dom().len() as usize,
            limit: CATCH_MAX_ENTRIES,
        }),
        r matches Ok(plan) ==> plan.effective.wf() && plan.effective.map() == effective_spec(
            existing@ + added@,
        ) && exists|prev: FilterSet|
            prev.wf() && prev.map() == effective_spec(existing@) && plan.commands@ == sync_spec(
                prev.rows(),
                prev.map(),
                plan.effective.rows(),
                plan.effective.map(),
            ),
{
    let prev = effective(existing);
    let mut all: Vec<CatchFilter> = Vec::new();
    let mut i: usize = 0;
    while i < existing.len()
        invariant
            i <= existing@.len(),
            all@ == existing@.take(i as int),
        decreases existing@.len() - i,
    {
        all.push(existing[i]);
        assert(existing@.take(i as int + 1) =~= existing@.take(i as int).push(existing@[i as int]));
        i = i + 1;
    }
    let mut j: usize = 0;
    while j < added.len()
        invariant
            j <= added@.len(),
            all@ == existing@ + added@.take(j as int),
        decreases added@.len() - j,
    {
        all.push(added[j]);
        assert(added@.take(j as int + 1) =~= added@.take(j as int).push(added@[j as int]));
        j = j + 1;
    }
    assert(existing@.take(existing@.len() as int) =~= existing@);
    assert(added@.take(added@.len() as int) =~= added@);
    let eff = effective(&all);
    proof {
        lemma_rows_len(eff.rows());
    }
    if eff.len() > CATCH_MAX_ENTRIES {
        return Err(Error::CatchTableFull { needed: eff.len(), limit: CATCH_MAX_ENTRIES });
    }
    let commands = sync_commands(&prev, &eff);
    Ok(SubscribePlan { effective: eff, commands })
}

} // verus!
