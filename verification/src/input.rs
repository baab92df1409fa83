//! Input subscriptions decoded into edges: the box reports each class's held usages as a snapshot,
//! and the host turns consecutive snapshots into press and release edges.

use crate::catch::{catch_class_of, filter_matches, is_input_class, Capture, CatchClass, CatchFilter};
use crate::error::Error;
use crate::rules::{lemma_select_contains, select};
use crate::types::{Class, Direction, Usage};
use vstd::prelude::*;

verus! {

/// One decoded input event.
#[derive(Clone, Copy, Debug, PartialEq, Eq, Hash, Structural)]
pub enum Input {
    /// A usage went down.
    Press(Usage),
    /// A usage came up.
    Release(Usage),
    /// The axes moved.
    Motion { dx: i16, dy: i16, dz: i16, pan: i16 },
}

/// The chip whose clock stamped a report.
#[derive(Clone, Copy, Debug, PartialEq, Eq, Hash, Structural)]
pub enum ClockDomain {
    HostChip,
    DeviceChip,
}

/// A decoded input event with the stamp of the report it came from.
#[derive(Clone, Copy, Debug, PartialEq, Eq, Hash, Structural)]
pub struct InputEvent {
    /// The report's timestamp, in microseconds on `clock`.
    pub ts_us: u32,
    /// The chip whose clock stamped it.
    pub clock: ClockDomain,
    pub input: Input,
}

/// Events of one report, each carrying that report's stamp.
pub open spec fn stamped(events: Seq<Input>, ts_us: u32, clock: ClockDomain) -> Seq<InputEvent> {
    events.map_values(|i: Input| InputEvent { ts_us, clock, input: i })
}

/// The slot of a class's held usages.
pub open spec fn class_slot(c: Class) -> int {
    match c {
        Class::Button => 0,
        Class::Key => 1,
        Class::Media => 2,
    }
}

/// The slot of a class's held usages.
pub fn class_index(class: Class) -> (i: usize)
    ensures
        i == class_slot(class),
{
    match class {
        Class::Button => 0,
        Class::Key => 1,
        Class::Media => 2,
    }
}

/// Why a filter cannot be decoded to edges: the every-class wildcard covers traffic; a traffic
/// class has no edges; a one-edge filter cannot tell a fresh press from a chord.
pub open spec fn input_filter_error(f: CatchFilter) -> Option<Error> {
    match f.class {
        None => Some(Error::WildcardNotInput),
        Some(c) => if !is_input_class(c) {
            Some(Error::NotAnInputFilter { class: c })
        } else if f.direction != Direction::Both {
            Some(Error::HalfEdgeInputFilter)
        } else {
            None
        },
    }
}

/// The first refusal among filters, if any.
pub open spec fn first_input_error(s: Seq<CatchFilter>) -> Option<Error>
    decreases s.len(),
{
    if s.len() == 0 {
        None
    } else {
        match first_input_error(s.drop_last()) {
            Some(e) => Some(e),
            None => input_filter_error(s.last()),
        }
    }
}

proof fn lemma_first_input_error_prefix(s: Seq<CatchFilter>, n: int)
    requires
        0 <= n <= s.len(),
        first_input_error(s.take(n)) is Some,
    ensures
        first_input_error(s) == first_input_error(s.take(n)),
    decreases s.len() - n,
{
    if n < s.len() {
        assert(s.take(n + 1).drop_last() =~= s.take(n));
        lemma_first_input_error_prefix(s, n + 1);
    } else {
        assert(s.take(n) =~= s);
    }
}

/// Check that every filter of an input subscription names an input class and covers both edges.
pub fn check_input_filters(filters: &Vec<CatchFilter>) -> (r: Result<(), Error>)
    ensures
        r == (match first_input_error(filters@) {
            Some(e) => Err::<(), Error>(e),
            None => Ok(()),
        }),
{
    let mut i: usize = 0;
    while i < filters.len()
        invariant
            i <= filters@.len(),
            first_input_error(filters@.take(i as int)) is None,
        decreases filters@.len() - i,
    {
        assert(filters@.take(i as int + 1).drop_last() =~= filters@.take(i as int));
        let f = filters[i];
        let err = match f.class {
            None => Some(Error::WildcardNotInput),
            Some(c) => if !c.is_input() {
                Some(Error::NotAnInputFilter { class: c })
            } else if f.direction != Direction::Both {
                Some(Error::HalfEdgeInputFilter)
            } else {
                None
            },
        };
        if let Some(e) = err {
            proof {
                lemma_first_input_error_prefix(filters@, i as int + 1);
            }
            return Err(e);
        }
        i = i + 1;
    }
    assert(filters@.take(filters@.len() as int) =~= filters@);
    Ok(())
}

/// Whether a stream subscribed `usage` of `class`: the usage's own class byte must agree with the
/// snapshot's, or it would be filed under the wrong class and never released.
pub open spec fn subscribed_spec(filters: Seq<CatchFilter>, class: Class, u: Usage) -> bool {
    u.class == class && exists|i: int|
        0 <= i < filters.len() && filter_matches(#[trigger] filters[i], catch_class_of(class), u.id, Direction::Both)
}

/// Whether a stream subscribed `usage` of `class`.
pub fn subscribed(filters: &Vec<CatchFilter>, class: Class, usage: Usage) -> (r: bool)
    ensures
        r == subscribed_spec(filters@, class, usage),
{
    if usage.class != class {
        return false;
    }
    let cc = CatchClass::of_class(class);
    let mut i: usize = 0;
    while i < filters.len()
        invariant
            i <= filters@.len(),
            usage.class == class,
            cc == catch_class_of(class),
            forall|j: int| 0 <= j < i ==> !filter_matches(#[trigger] filters@[j], cc, usage.id, Direction::Both),
        decreases filters@.len() - i,
    {
        if filters[i].matches(cc, usage.id, Direction::Both) {
            assert(filter_matches(filters@[i as int], catch_class_of(class), usage.id, Direction::Both));
            return true;
        }
        i = i + 1;
    }
    false
}

/// The usages a snapshot holds for this stream, each once, in the order first listed.
pub open spec fn held_now(s: Seq<Usage>, p: spec_fn(Usage) -> bool) -> Seq<Usage>
    decreases s.len(),
{
    if s.len() == 0 {
        Seq::empty()
    } else {
        let n = held_now(s.drop_last(), p);
        if p(s.last()) && !n.contains(s.last()) {
            n.push(s.last())
        } else {
            n
        }
    }
}

/// The usages not in `s`.
pub open spec fn not_in(s: Seq<Usage>) -> spec_fn(Usage) -> bool {
    |u: Usage| !s.contains(u)
}

/// The edges from `was` to `now`: releases first, in the order held, so a swap within one report
/// reads as "A came up, B went down"; then presses, in the order listed.
pub open spec fn edges_spec(was: Seq<Usage>, now: Seq<Usage>) -> Seq<Input> {
    select(was, not_in(now)).map_values(|u: Usage| Input::Release(u)) + select(now, not_in(was)).map_values(
        |u: Usage| Input::Press(u),
    )
}

/// A snapshot's held set follows from the held set before it and its edges: what was held and
/// not released, and what was pressed.
pub proof fn lemma_edges_rebuild_held(was: Seq<Usage>, now: Seq<Usage>, x: Usage)
    ensures
        now.contains(x) <==> ((was.contains(x) && !select(was, not_in(now)).contains(x)) || select(
            now,
            not_in(was),
        ).contains(x)),
{
    lemma_select_contains(was, not_in(now), x);
    lemma_select_contains(now, not_in(was), x);
}

proof fn lemma_held_now_contains(s: Seq<Usage>, p: spec_fn(Usage) -> bool, x: Usage)
    ensures
        held_now(s, p).contains(x) <==> (s.contains(x) && p(x)),
        held_now(s, p).no_duplicates(),
    decreases s.len(),
{
    if s.len() > 0 {
        let d = s.drop_last();
        let e = s.last();
        lemma_held_now_contains(d, p, x);
        lemma_held_now_contains(d, p, e);
        let n = held_now(d, p);
        assert(s =~= d.push(e));
        assert(s.contains(x) <==> (d.contains(x) || x == e)) by {
            if s.contains(x) {
                let i = choose|i: int| 0 <= i < s.len() && s[i] == x;
                if i < d.len() {
                    assert(d[i] == x);
                }
            }
            if d.contains(x) {
                let i = choose|i: int| 0 <= i < d.len() && d[i] == x;
                assert(s[i] == x);
            }
            if x == e {
                assert(s[s.len() - 1] == x);
            }
        }
        if p(e) && !n.contains(e) {
            assert(n.push(e).contains(x) <==> (n.contains(x) || x == e)) by {
                if n.push(e).contains(x) {
                    let i = choose|i: int| 0 <= i < n.push(e).len() && n.push(e)[i] == x;
                    if i < n.len() {
                        assert(n[i] == x);
                    }
                }
                if n.contains(x) {
                    let i = choose|i: int| 0 <= i < n.len() && n[i] == x;
                    assert(n.push(e)[i] == x);
                }
                if x == e {
                    assert(n.push(e)[n.len() as int] == x);
                }
            }
            assert forall|i: int, j: int| 0 <= i < n.push(e).len() && 0 <= j < n.push(e).len() && i != j implies n.push(e)[i] != n.push(e)[j] by {
                if i < n.len() && j < n.len() {
                } else if i < n.len() {
                    assert(n.contains(n[i]));
                } else {
                    assert(n.contains(n[j]));
                }
            }
        }
    }
}

/// Whether `v` holds `u`.
fn holds_usage(v: &Vec<Usage>, u: Usage) -> (r: bool)
    ensures
        r == v@.contains(u),
{
    let mut i: usize = 0;
    while i < v.len()
        invariant
            i <= v@.len(),
            forall|j: int| 0 <= j < i ==> v@[j] != u,
        decreases v@.len() - i,
    {
        if v[i] == u {
            return true;
        }
        i = i + 1;
    }
    false
}

/// The usages a snapshot of `class` holds for a stream subscribed with `filters`, each once.
pub open spec fn snapshot_now(filters: Seq<CatchFilter>, class: Class, usages: Seq<Usage>) -> Seq<Usage> {
    held_now(usages, |u: Usage| subscribed_spec(filters, class, u))
}

/// Decode one snapshot of `class` against what the stream held: the edges, and the new held list.
pub fn decode_snapshot(filters: &Vec<CatchFilter>, was: &Vec<Usage>, class: Class, usages: &Vec<Usage>) -> (r: (Vec<Input>, Vec<Usage>))
    ensures
        r.1@ == snapshot_now(filters@, class, usages@),
        r.0@ == edges_spec(was@, r.1@),
        r.1@.no_duplicates(),
{
    let ghost p = |u: Usage| subscribed_spec(filters@, class, u);
    let mut now: Vec<Usage> = Vec::new();
    let mut i: usize = 0;
    while i < usages.len()
        invariant
            i <= usages@.len(),
            p == (|u: Usage| subscribed_spec(filters@, class, u)),
            now@ == held_now(usages@.take(i as int), p),
        decreases usages@.len() - i,
    {
        assert(usages@.take(i as int + 1).drop_last() =~= usages@.take(i as int));
        let u = usages[i];
        if subscribed(filters, class, u) && !holds_usage(&now, u) {
            now.push(u);
        }
        i = i + 1;
    }
    assert(usages@.take(usages@.len() as int) =~= usages@);
    proof {
        lemma_held_now_contains(usages@, p, usages@[0]);
    }
    let mut events: Vec<Input> = Vec::new();
    let mut j: usize = 0;
    while j < was.len()
        invariant
            j <= was@.len(),
            events@ == select(was@.take(j as int), not_in(now@)).map_values(|u: Usage| Input::Release(u)),
        decreases was@.len() - j,
    {
        assert(was@.take(j as int + 1).drop_last() =~= was@.take(j as int));
        let u = was[j];
        if !holds_usage(&now, u) {
            let ghost before = events@;
            events.push(Input::Release(u));
            assert(events@ =~= select(was@.take(j as int + 1), not_in(now@)).map_values(|u: Usage| Input::Release(u)));
        }
        j = j + 1;
    }
    assert(was@.take(was@.len() as int) =~= was@);
    let ghost head = events@;
    let mut k: usize = 0;
    while k < now.len()
        invariant
            k <= now@.len(),
            events@ == head + select(now@.take(k as int), not_in(was@)).map_values(|u: Usage| Input::Press(u)),
        decreases now@.len() - k,
    {
        assert(now@.take(k as int + 1).drop_last() =~= now@.take(k as int));
        let u = now[k];
        if !holds_usage(was, u) {
            events.push(Input::Press(u));
            assert(events@ =~= head + select(now@.take(k as int + 1), not_in(was@)).map_values(|u: Usage| Input::Press(u)));
        }
        k = k + 1;
    }
    assert(now@.take(now@.len() as int) =~= now@);
    (events, now)
}

/// Snapshot decoding for one input stream: what it subscribed, and what it holds of each class.
#[derive(Debug)]
pub struct InputDecoder {
    filters: Vec<CatchFilter>,
    buttons: Vec<Usage>,
    keys: Vec<Usage>,
    media: Vec<Usage>,
}

impl InputDecoder {
    /// The filters the stream subscribed with.
    pub closed spec fn filters(&self) -> Seq<CatchFilter> {
        self.filters@
    }

    /// The usages of `c` the stream holds.
    pub closed spec fn held_of(&self, c: Class) -> Seq<Usage> {
        match c {
            Class::Button => self.buttons@,
            Class::Key => self.keys@,
            Class::Media => self.media@,
        }
    }

    /// A decoder holding nothing, after checking the filters.
    pub fn new(filters: Vec<CatchFilter>) -> (r: Result<InputDecoder, Error>)
        ensures
            r is Err <==> first_input_error(filters@) is Some,
            r matches Err(e) ==> first_input_error(filters@) == Some(e),
            r matches Ok(d) ==> d.filters() == filters@ && forall|c: Class| #[trigger] d.held_of(c).len() == 0,
    {
        match check_input_filters(&filters) {
            Err(e) => Err(e),
            Ok(()) => Ok(InputDecoder { filters, buttons: Vec::new(), keys: Vec::new(), media: Vec::new() }),
        }
    }

    /// The usages of `class` the stream holds.
    pub fn held(&self, class: Class) -> (r: &Vec<Usage>)
        ensures
            r@ == self.held_of(class),
    {
        match class {
            Class::Button => &self.buttons,
            Class::Key => &self.keys,
            Class::Media => &self.media,
        }
    }

    /// A snapshot of `class`'s held usages: its edges against what was held, which it replaces.
    pub fn on_usages(&mut self, class: Class, usages: &Vec<Usage>) -> (events: Vec<Input>)
        ensures
            final(self).filters() == old(self).filters(),
            final(self).held_of(class) == snapshot_now(old(self).filters(), class, usages@),
            forall|c: Class| c != class ==> #[trigger] final(self).held_of(c) == old(self).held_of(c),
            events@ == edges_spec(old(self).held_of(class), final(self).held_of(class)),
    {
        let (events, now) = match class {
            Class::Button => decode_snapshot(&self.filters, &self.buttons, class, usages),
            Class::Key => decode_snapshot(&self.filters, &self.keys, class, usages),
            Class::Media => decode_snapshot(&self.filters, &self.media, class, usages),
        };
        match class {
            Class::Button => self.buttons = now,
            Class::Key => self.keys = now,
            Class::Media => self.media = now,
        }
        events
    }

    /// A motion report: an event when any axis moved.
    pub fn on_motion(&self, dx: i16, dy: i16, dz: i16, pan: i16) -> (r: Option<Input>)
        ensures
            (dx != 0 || dy != 0 || dz != 0 || pan != 0) ==> r == Some(Input::Motion { dx, dy, dz, pan }),
            !(dx != 0 || dy != 0 || dz != 0 || pan != 0) ==> r is None,
    {
        if dx != 0 || dy != 0 || dz != 0 || pan != 0 {
            Some(Input::Motion { dx, dy, dz, pan })
        } else {
            None
        }
    }

    /// A snapshot of `class`'s held usages stamped `ts_us` on `clock`: its edges against what was
    /// held, each carrying the report's stamp.
    pub fn on_usages_at(&mut self, class: Class, usages: &Vec<Usage>, ts_us: u32, clock: ClockDomain) -> (events: Vec<InputEvent>)
        ensures
            final(self).filters() == old(self).filters(),
            final(self).held_of(class) == snapshot_now(old(self).filters(), class, usages@),
            forall|c: Class| c != class ==> #[trigger] final(self).held_of(c) == old(self).held_of(c),
            events@ == stamped(edges_spec(old(self).held_of(class), final(self).held_of(class)), ts_us, clock),
    {
        let edges = self.on_usages(class, usages);
        let mut out: Vec<InputEvent> = Vec::new();
        let mut i: usize = 0;
        while i < edges.len()
            invariant
                i <= edges@.len(),
                out@ == stamped(edges@.take(i as int), ts_us, clock),
            decreases edges@.len() - i,
        {
            out.push(InputEvent { ts_us, clock, input: edges[i] });
            assert(edges@.take(i as int + 1) =~= edges@.take(i as int).push(edges@[i as int]));
            assert(out@ =~= stamped(edges@.take(i as int + 1), ts_us, clock));
            i = i + 1;
        }
        assert(edges@.take(edges@.len() as int) =~= edges@);
        out
    }

    /// A motion report stamped `ts_us` on `clock`: an event when any axis moved.
    pub fn on_motion_at(&self, dx: i16, dy: i16, dz: i16, pan: i16, ts_us: u32, clock: ClockDomain) -> (r: Option<InputEvent>)
        ensures
            (dx != 0 || dy != 0 || dz != 0 || pan != 0) ==> r == Some(
                InputEvent { ts_us, clock, input: Input::Motion { dx, dy, dz, pan } },
            ),
            !(dx != 0 || dy != 0 || dz != 0 || pan != 0) ==> r is None,
    {
        match self.on_motion(dx, dy, dz, pan) {
            Some(input) => Some(InputEvent { ts_us, clock, input }),
            None => None,
        }
    }
}

/// Every class a usage can have decodes to edges, and so do axes: a whole-class, both-direction
/// subscription to axes, buttons, keys or media usages is taken.
pub proof fn lemma_usage_classes_decode(c: Class)
    ensures
        is_input_class(catch_class_of(c)),
        is_input_class(CatchClass::Axis),
        input_filter_error(
            CatchFilter { class: Some(catch_class_of(c)), id: None, direction: Direction::Both, capture: Capture::Whole },
        ) is None,
        input_filter_error(
            CatchFilter { class: Some(CatchClass::Axis), id: None, direction: Direction::Both, capture: Capture::Whole },
        ) is None,
        first_input_error(
            seq![CatchFilter { class: Some(catch_class_of(c)), id: None, direction: Direction::Both, capture: Capture::Whole }],
        ) is None,
{
    let f = CatchFilter { class: Some(catch_class_of(c)), id: None, direction: Direction::Both, capture: Capture::Whole };
    let s = seq![f];
    assert(s.drop_last() =~= Seq::<CatchFilter>::empty());
    assert(first_input_error(s.drop_last()) is None);
    assert(s.last() == f);
    assert(input_filter_error(f) is None);
}

/// What an input subscription is refused for: the every-class wildcard, a traffic class (which has
/// no edges), or a single direction on an input class (a fresh press would look like a chord).
pub proof fn lemma_input_refusals(c: CatchClass, id: Option<u16>, d: Direction, cap: Capture)
    ensures
        input_filter_error(CatchFilter { class: None, id, direction: d, capture: cap }) == Some(Error::WildcardNotInput),
        !(c == CatchClass::Axis || c == CatchClass::Button || c == CatchClass::Key || c == CatchClass::Media)
            ==> input_filter_error(CatchFilter { class: Some(c), id, direction: d, capture: cap }) == Some(
            Error::NotAnInputFilter { class: c },
        ),
        (c == CatchClass::Axis || c == CatchClass::Button || c == CatchClass::Key || c == CatchClass::Media)
            ==> input_filter_error(CatchFilter { class: Some(c), id, direction: d, capture: cap }) == (if d
            == Direction::Both {
            None
        } else {
            Some(Error::HalfEdgeInputFilter)
        }),
{
}

} // verus!
