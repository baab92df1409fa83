//! Routing caught events to subscriptions: which subscribers an event the box streamed goes to.
//!
//! A traffic packet carries its `(class, id, direction)` and matches a filter directly. A usage
//! snapshot is the state of a whole class, so it routes on class and edge. A motion report goes to
//! a subscriber that asked for any axis it moved, with that axis's sign; a report that moved
//! nothing goes to any subscriber of the axis class.

use crate::catch::{catch_class_of, filter_matches, CatchClass, CatchFilter, FilterSet};
use crate::keyed::{lemma_map_of_row, map_of};
use crate::types::{axis_id, direction_admits, Axis, Class, Direction};
use vstd::prelude::*;

verus! {

/// A decoded event, as far as routing reads it.
#[derive(Debug, Clone)]
pub enum CatchEvent {
    /// A motion report: the axes it moved, each with its delta.
    Motion(Vec<(Axis, i16)>),
    /// A usage snapshot: the class whose state it carries and the edge it reports.
    Usages { class: Class, direction: Direction },
    /// A traffic packet: its class, id and flow.
    Traffic { class: CatchClass, id: u16, direction: Direction },
}

/// The sign a delta moves in: `Both` for no movement.
pub open spec fn delta_direction(d: i16) -> Direction {
    if d > 0 {
        Direction::Positive
    } else if d < 0 {
        Direction::Negative
    } else {
        Direction::Both
    }
}

/// Whether a filter addresses the class `c` at all.
pub open spec fn addresses_class(f: CatchFilter, c: CatchClass) -> bool {
    f.class is None || f.class == Some(c)
}

/// Whether a filter takes event `e` (for a motion report: the axis at position `i` it moved, or,
/// when it moved none, the axis class).
pub open spec fn takes(f: CatchFilter, e: CatchEvent) -> bool {
    match e {
        CatchEvent::Motion(axes) => if axes@.len() == 0 {
            addresses_class(f, CatchClass::Axis)
        } else {
            exists|i: int|
                0 <= i < axes@.len() && #[trigger] filter_matches(
                    f,
                    CatchClass::Axis,
                    axis_id(axes@[i].0),
                    delta_direction(axes@[i].1),
                )
        },
        CatchEvent::Usages { class, direction } => addresses_class(f, catch_class_of(class))
            && direction_admits(f.direction, direction),
        CatchEvent::Traffic { class, id, direction } => filter_matches(f, class, id, direction),
    }
}

/// Whether a subscription with filters `m` wants event `e`: some filter of it takes the event.
pub open spec fn wanted_spec(m: Map<u64, CatchFilter>, e: CatchEvent) -> bool {
    exists|k: u64| m.dom().contains(k) && #[trigger] takes(m[k], e)
}

fn filter_takes(f: CatchFilter, e: &CatchEvent) -> (r: bool)
    ensures
        r == takes(f, *e),
{
    match e {
        CatchEvent::Motion(axes) => {
            if axes.len() == 0 {
                f.matches_class_only(CatchClass::Axis)
            } else {
                let mut i: usize = 0;
                while i < axes.len()
                    invariant
                        i <= axes@.len(),
                        *e == (CatchEvent::Motion(*axes)),
                        forall|j: int|
                            0 <= j < i ==> !#[trigger] filter_matches(
                                f,
                                CatchClass::Axis,
                                axis_id(axes@[j].0),
                                delta_direction(axes@[j].1),
                            ),
                    decreases axes@.len() - i,
                {
                    let (ax, d) = axes[i];
                    if f.matches(CatchClass::Axis, ax.as_u16(), Direction::of_delta(d)) {
                        assert(filter_matches(
                            f,
                            CatchClass::Axis,
                            axis_id(axes@[i as int].0),
                            delta_direction(axes@[i as int].1),
                        ));
                        return true;
                    }
                    i = i + 1;
                }
                false
            }
        },
        CatchEvent::Usages { class, direction } => {
            f.matches_class_only(CatchClass::of_class(*class)) && f.direction.admits(*direction)
        },
        CatchEvent::Traffic { class, id, direction } => f.matches(*class, *id, *direction),
    }
}

/// Whether a subscription holding `filters` wants `event`.
pub fn wanted(filters: &FilterSet, event: &CatchEvent) -> (r: bool)
    requires
        filters.wf(),
    ensures
        r == wanted_spec(filters.map(), *event),
{
    let ghost rows = filters.rows();
    let mut i: usize = 0;
    while i < filters.len()
        invariant
            filters.wf(),
            rows == filters.rows(),
            i <= rows.len(),
            forall|j: int| 0 <= j < i ==> !#[trigger] takes(rows[j].1, *event),
        decreases rows.len() - i,
    {
        let (_, f) = filters.row(i);
        if filter_takes(f, event) {
            proof {
                lemma_map_of_row(rows, i as int);
                assert(takes(filters.map()[rows[i as int].0], *event));
            }
            return true;
        }
        i = i + 1;
    }
    proof {
        assert forall|k: u64| filters.map().dom().contains(k) implies !#[trigger] takes(
            filters.map()[k],
            *event,
        ) by {
            let j = choose|j: int| 0 <= j < rows.len() && rows[j].0 == k;
            lemma_map_of_row(rows, j);
            assert(!takes(rows[j].1, *event));
        }
    }
    false
}

/// The subscriptions, by position, an event goes to: each that wants it, in order.
pub fn route(subs: &Vec<FilterSet>, event: &CatchEvent) -> (r: Vec<usize>)
    requires
        forall|s: int| 0 <= s < subs.len() ==> #[trigger] subs@[s].wf(),
    ensures
        forall|k: int| 0 <= k < r.len() ==> r[k] < subs.len(),
        forall|a: int, b: int| 0 <= a < b < r.len() ==> r[a] < r[b],
        forall|s: int|
            0 <= s < subs.len() ==> (r@.contains(s as usize) <==> wanted_spec(
                #[trigger] subs@[s].map(),
                *event,
            )),
{
    let mut out: Vec<usize> = Vec::new();
    let mut i: usize = 0;
    while i < subs.len()
        invariant
            i <= subs.len(),
            forall|s: int| 0 <= s < subs.len() ==> #[trigger] subs@[s].wf(),
            forall|k: int| 0 <= k < out.len() ==> out[k] < i,
            forall|a: int, b: int| 0 <= a < b < out.len() ==> out[a] < out[b],
            forall|s: int|
                0 <= s < i ==> (out@.contains(s as usize) <==> wanted_spec(
                    #[trigger] subs@[s].map(),
                    *event,
                )),
        decreases subs.len() - i,
    {
        let w = wanted(&subs[i], event);
        let ghost before = out@;
        if w {
            out.push(i);
        }
        proof {
            assert forall|s: int| 0 <= s < i + 1 implies (out@.contains(s as usize) <==> wanted_spec(
                #[trigger] subs@[s].map(),
                *event,
            )) by {
                if s < i {
                    if before.contains(s as usize) {
                        let k = choose|k: int| 0 <= k < before.len() && before[k] == s as usize;
                        assert(out@[k] == s as usize);
                    }
                    if out@.contains(s as usize) {
                        let k = choose|k: int| 0 <= k < out@.len() && out@[k] == s as usize;
                        if k < before.len() {
                            assert(before[k] == s as usize);
                        }
                    }
                } else {
                    if w {
                        assert(out@[out@.len() - 1] == i);
                    } else if out@.contains(s as usize) {
                        let k = choose|k: int| 0 <= k < out@.len() && out@[k] == s as usize;
                        assert(before[k] < i);
                    }
                }
            }
        }
        i = i + 1;
    }
    out
}

} // verus!
