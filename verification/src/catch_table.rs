//! What the box's catch table holds after a run of catch frames, and the law that the frames
//! [`sync_commands`](crate::catch::sync_commands) sends take the box from the table it holds to the
//! one it should: entry for entry, with each entry's capture.

use crate::catch::{
    addition, capture_byte, capture_rank, capture_widest, clear_all_command, collapse_spec,
    covers_spec, effective_spec, entry_command, filter_class_byte, filter_id_wire, filter_key,
    filters_keyed, has_pair, key_at_dir, merge_target, merged_away, merged_pair, removal,
    siblings_merged, sync_spec, widen_cap, widened, wildcard_removed, CatchCommand, CatchFilter,
    FilterSet,
};
use crate::types::{direction_byte, Direction};
use crate::keyed::{has_key, lemma_has_key_take, lemma_map_of_row, map_of, sorted_keys};
use crate::opcode::{CATCH_CLS_ANY, CATCH_ID_ANY};
use vstd::prelude::*;

verus! {

/// The table key a frame addresses: `(class, id, direction)` packed as the host keys its table.
pub open spec fn command_key(c: CatchCommand) -> u64 {
    ((c.class as u64) * 0x1000000 + (c.id as u64) * 0x100 + (c.direction as u64)) as u64
}

/// Whether a frame clears the whole table: the wildcard entry unsubscribed, whatever its direction.
pub open spec fn clears_table(c: CatchCommand) -> bool {
    !c.on && c.class == CATCH_CLS_ANY && c.id == CATCH_ID_ANY
}

/// The box's table after one frame: cleared, an entry set (with its capture byte), or an entry
/// removed.
pub open spec fn box_step(t: Map<u64, u8>, c: CatchCommand) -> Map<u64, u8> {
    if clears_table(c) {
        Map::empty()
    } else if c.on {
        t.insert(command_key(c), c.capture)
    } else {
        t.remove(command_key(c))
    }
}

/// The box's table after a run of frames.
pub open spec fn box_apply(t: Map<u64, u8>, cmds: Seq<CatchCommand>) -> Map<u64, u8>
    decreases cmds.len(),
{
    if cmds.len() == 0 {
        t
    } else {
        box_step(box_apply(t, cmds.drop_last()), cmds.last())
    }
}

/// The box's table holding the host's entries: each key with its entry's capture byte.
pub open spec fn box_table(m: Map<u64, CatchFilter>) -> Map<u64, u8> {
    Map::new(|k: u64| m.dom().contains(k), |k: u64| capture_byte(m[k].capture))
}

/// Running two runs of frames is running their concatenation.
pub proof fn lemma_box_apply_concat(t: Map<u64, u8>, a: Seq<CatchCommand>, b: Seq<CatchCommand>)
    ensures
        box_apply(t, a + b) == box_apply(box_apply(t, a), b),
    decreases b.len(),
{
    if b.len() == 0 {
        assert(a + b =~= a);
    } else {
        assert((a + b).drop_last() =~= a + b.drop_last());
        assert((a + b).last() == b.last());
        lemma_box_apply_concat(t, a, b.drop_last());
    }
}

/// One frame's run is that frame.
proof fn lemma_box_apply_one(t: Map<u64, u8>, c: CatchCommand)
    ensures
        box_apply(t, seq![c]) == box_step(t, c),
{
    assert(seq![c].drop_last() =~= Seq::<CatchCommand>::empty());
    assert(box_apply(t, seq![c].drop_last()) == t);
}

/// A row's entry sits under its own key.
proof fn lemma_row_keyed(rows: Seq<(u64, CatchFilter)>, i: int)
    requires
        sorted_keys(rows),
        filters_keyed(map_of(rows)),
        0 <= i < rows.len(),
    ensures
        command_key(entry_command(rows[i].1, true)) == rows[i].0,
        command_key(entry_command(rows[i].1, false)) == rows[i].0,
        map_of(rows)[rows[i].0] == rows[i].1,
        map_of(rows).dom().contains(rows[i].0),
{
    lemma_map_of_row(rows, i);
}

/// The table after the removal frames of the first `n` rows: each of them that leaves is gone.
pub open spec fn after_removals(t0: Map<u64, u8>, rows: Seq<(u64, CatchFilter)>, next: Map<u64, CatchFilter>, n: int) -> Map<u64, u8> {
    Map::new(
        |k: u64| t0.dom().contains(k) && !(has_key(rows.take(n), k) && !next.dom().contains(k)),
        |k: u64| t0[k],
    )
}

/// The table after the set frames of the first `n` rows: each of them holds its capture.
pub open spec fn after_additions(t1: Map<u64, u8>, rows: Seq<(u64, CatchFilter)>, n: int) -> Map<u64, u8> {
    Map::new(
        |k: u64| t1.dom().contains(k) || has_key(rows.take(n), k),
        |k: u64|
            if has_key(rows.take(n), k) {
                capture_byte(map_of(rows)[k].capture)
            } else {
                t1[k]
            },
    )
}

/// The removal frames, when the wildcard stays: each entry that leaves is removed, and nothing
/// else changes.
proof fn lemma_removals(t0: Map<u64, u8>, rows: Seq<(u64, CatchFilter)>, next: Map<u64, CatchFilter>, n: int)
    requires
        sorted_keys(rows),
        filters_keyed(map_of(rows)),
        !wildcard_removed(rows, next),
        0 <= n <= rows.len(),
    ensures
        box_apply(t0, rows.take(n).filter_map(removal(next, false))) == after_removals(t0, rows, next, n),
    decreases n,
{
    let target = after_removals(t0, rows, next, n);
    if n == 0 {
        assert(rows.take(0).filter_map(removal(next, false)) =~= Seq::<CatchCommand>::empty());
        assert forall|k: u64| !has_key(rows.take(0), k) by {}
        assert(target =~= t0);
    } else {
        let m = n - 1;
        lemma_removals(t0, rows, next, m);
        let before = after_removals(t0, rows, next, m);
        let r = rows[m];
        assert(rows.take(n).drop_last() =~= rows.take(m));
        assert(rows.take(n).last() == r);
        assert forall|k: u64| has_key(rows.take(n), k) == (has_key(rows.take(m), k) || k == r.0) by {
            lemma_has_key_take(rows, m, k);
        }
        lemma_row_keyed(rows, m);
        if next.dom().contains(r.0) {
            assert(rows.take(n).filter_map(removal(next, false)) == rows.take(m).filter_map(
                removal(next, false),
            ));
            assert(target =~= before);
        } else {
            assert(!(r.1.class is None)) by {
                if r.1.class is None {
                    assert(0 <= m < rows.len() && rows[m].1.class is None && !next.dom().contains(
                        rows[m].0,
                    ));
                }
            }
            let c = entry_command(r.1, false);
            assert(rows.take(n).filter_map(removal(next, false)) == rows.take(m).filter_map(
                removal(next, false),
            ) + seq![c]);
            assert(c.class != CATCH_CLS_ANY);
            lemma_box_apply_concat(t0, rows.take(m).filter_map(removal(next, false)), seq![c]);
            lemma_box_apply_one(before, c);
            assert(target =~= before.remove(r.0));
        }
    }
}

/// The set frames: each entry that is new, or changed its capture, is set; an entry left alone
/// already holds its capture.
proof fn lemma_additions(
    t1: Map<u64, u8>,
    rows: Seq<(u64, CatchFilter)>,
    prev: Map<u64, CatchFilter>,
    wr: bool,
    n: int,
)
    requires
        sorted_keys(rows),
        filters_keyed(map_of(rows)),
        0 <= n <= rows.len(),
        forall|j: int|
            0 <= j < rows.len() && (#[trigger] addition(prev, wr)(rows[j])) is None ==> t1.dom().contains(
                rows[j].0,
            ) && t1[rows[j].0] == capture_byte(rows[j].1.capture),
    ensures
        box_apply(t1, rows.take(n).filter_map(addition(prev, wr))) == after_additions(t1, rows, n),
    decreases n,
{
    let target = after_additions(t1, rows, n);
    if n == 0 {
        assert(rows.take(0).filter_map(addition(prev, wr)) =~= Seq::<CatchCommand>::empty());
        assert forall|k: u64| !has_key(rows.take(0), k) by {}
        assert(target =~= t1);
    } else {
        let m = n - 1;
        lemma_additions(t1, rows, prev, wr, m);
        let before = after_additions(t1, rows, m);
        let r = rows[m];
        assert(rows.take(n).drop_last() =~= rows.take(m));
        assert(rows.take(n).last() == r);
        assert forall|k: u64| has_key(rows.take(n), k) == (has_key(rows.take(m), k) || k == r.0) by {
            lemma_has_key_take(rows, m, k);
        }
        lemma_row_keyed(rows, m);
        if addition(prev, wr)(r) is None {
            assert(rows.take(n).filter_map(addition(prev, wr)) == rows.take(m).filter_map(
                addition(prev, wr),
            ));
            assert(target =~= before);
        } else {
            let c = entry_command(r.1, true);
            assert(rows.take(n).filter_map(addition(prev, wr)) == rows.take(m).filter_map(
                addition(prev, wr),
            ) + seq![c]);
            lemma_box_apply_concat(t1, rows.take(m).filter_map(addition(prev, wr)), seq![c]);
            lemma_box_apply_one(before, c);
            assert(target =~= before.insert(r.0, capture_byte(r.1.capture)));
        }
    }
}

/// Catch-sync law: on a box holding the current table, the frames sent to move it to the next one
/// leave it holding exactly the next one, each entry with its capture; whether the wildcard entry
/// leaves (and the whole table is cleared and set again) or not.
pub proof fn lemma_sync_reaches_next(prev: FilterSet, next: FilterSet)
    requires
        prev.wf(),
        next.wf(),
        filters_keyed(prev.map()),
        filters_keyed(next.map()),
    ensures
        box_apply(box_table(prev.map()), sync_spec(prev.rows(), prev.map(), next.rows(), next.map()))
            == box_table(next.map()),
{
    let pr = prev.rows();
    let nr = next.rows();
    let pm = prev.map();
    let nm = next.map();
    let t0 = box_table(pm);
    let wr = wildcard_removed(pr, nm);
    let a = pr.filter_map(removal(nm, wr));
    let c = if wr {
        seq![clear_all_command()]
    } else {
        Seq::empty()
    };
    let b = nr.filter_map(addition(pm, wr));
    assert(sync_spec(pr, pm, nr, nm) == a + c + b);
    lemma_box_apply_concat(t0, a + c, b);
    lemma_box_apply_concat(t0, a, c);
    assert(pr.take(pr.len() as int) =~= pr);
    assert(nr.take(nr.len() as int) =~= nr);
    let t1 = box_apply(box_apply(t0, a), c);
    if wr {
        assert(c.drop_last() =~= Seq::<CatchCommand>::empty());
        assert(t1 == Map::<u64, u8>::empty());
    } else {
        assert(c =~= Seq::<CatchCommand>::empty());
        lemma_removals(t0, pr, nm, pr.len() as int);
        assert forall|j: int|
            0 <= j < nr.len() && (#[trigger] addition(pm, wr)(nr[j])) is None implies t1.dom().contains(
            nr[j].0,
        ) && t1[nr[j].0] == capture_byte(nr[j].1.capture) by {
            lemma_row_keyed(nr, j);
            assert(has_key(pr, nr[j].0));
        }
    }
    lemma_additions(t1, nr, pm, wr, nr.len() as int);
    assert forall|k: u64| t1.dom().contains(k) implies nm.dom().contains(k) by {
        if !wr {
            assert(has_key(pr, k));
        }
    }
    assert(box_apply(t1, b) =~= box_table(nm));
}

/// Whether table entry `e` serves subscription filter `f`: it sits at `f`'s address (class and id
/// as the wire carries them), in `f`'s direction or both, and keeps at least as much of each
/// packet.
pub open spec fn serves(e: CatchFilter, f: CatchFilter) -> bool {
    &&& filter_class_byte(e) == filter_class_byte(f)
    &&& filter_id_wire(e) == filter_id_wire(f)
    &&& (e.direction == f.direction || e.direction == Direction::Both)
    &&& capture_rank(e.capture) >= capture_rank(f.capture)
}

/// A table key names its class byte, id and direction byte.
proof fn lemma_key_fields(a: CatchFilter, b: CatchFilter)
    requires
        filter_key(a) == filter_key(b),
    ensures
        filter_class_byte(a) == filter_class_byte(b),
        filter_id_wire(a) == filter_id_wire(b),
        a.direction == b.direction,
{
    let ca = filter_class_byte(a) as int;
    let cb = filter_class_byte(b) as int;
    let ia = filter_id_wire(a) as int;
    let ib = filter_id_wire(b) as int;
    let da = direction_byte(a.direction) as int;
    let db = direction_byte(b.direction) as int;
    assert(filter_key(a) == ca * 0x1000000 + ia * 0x100 + da);
    assert(filter_key(b) == cb * 0x1000000 + ib * 0x100 + db);
    assert(da == db && ia == ib && ca == cb) by (nonlinear_arith)
        requires
            ca * 0x1000000 + ia * 0x100 + da == cb * 0x1000000 + ib * 0x100 + db,
            0 <= da < 0x100,
            0 <= db < 0x100,
            0 <= ia < 0x10000,
            0 <= ib < 0x10000,
            0 <= ca < 0x100,
            0 <= cb < 0x100,
    ;
}

/// The collapsed table keeps each of its entries under the entry's own key.
pub proof fn lemma_collapse_keyed(s: Seq<CatchFilter>)
    ensures
        filters_keyed(collapse_spec(s)),
    decreases s.len(),
{
    if s.len() > 0 {
        lemma_collapse_keyed(s.drop_last());
    }
}

/// Every filter folded into the collapsed table finds an entry at its key keeping at least its
/// capture.
proof fn lemma_collapse_holds(s: Seq<CatchFilter>, i: int)
    requires
        0 <= i < s.len(),
    ensures
        collapse_spec(s).dom().contains(filter_key(s[i])),
        capture_rank(collapse_spec(s)[filter_key(s[i])].capture) >= capture_rank(s[i].capture),
    decreases s.len(),
{
    let d = s.drop_last();
    if i < s.len() - 1 {
        lemma_collapse_holds(d, i);
        assert(d[i] == s[i]);
    }
}

/// Widening never narrows a capture.
proof fn lemma_widen_cap_grows(all: Seq<CatchFilter>, f: CatchFilter)
    ensures
        capture_rank(widen_cap(all, f)) >= capture_rank(f.capture),
    decreases all.len(),
{
    if all.len() > 0 {
        lemma_widen_cap_grows(all.drop_last(), f);
    }
}

/// Subscription law: the table every subscription together needs serves each filter any of them
/// subscribed with, at that filter's address, in its direction or both, with at least its capture.
pub proof fn lemma_effective_serves(all: Seq<CatchFilter>, i: int)
    requires
        0 <= i < all.len(),
    ensures
        exists|k: u64| #[trigger] effective_spec(all).dom().contains(k) && serves(effective_spec(all)[k], all[i]),
{
    let f = all[i];
    let c = collapse_spec(all);
    lemma_collapse_keyed(all);
    lemma_collapse_holds(all, i);
    let w = widened(c, all);
    let k0 = filter_key(f);
    let e0 = w[k0];
    lemma_widen_cap_grows(all, c[k0]);
    assert(filter_key(c[k0]) == k0);
    assert(filter_key(e0) == k0);
    lemma_key_fields(e0, f);
    assert(capture_rank(e0.capture) >= capture_rank(f.capture));
    assert(filters_keyed(w));
    let e = effective_spec(all);
    if !merged_away(w, e0) {
        if merge_target(w, k0) {
            let p = w[(k0 + 1) as u64];
            assert(filter_key(p) == k0 + 1);
            assert(key_at_dir(e0, Direction::Positive) == key_at_dir(p, Direction::Positive));
            assert(key_at_dir(e0, Direction::Negative) == key_at_dir(p, Direction::Negative));
            assert(direction_byte(e0.direction) == 0);
            assert(false);
        }
        assert(e.dom().contains(k0));
        assert(e[k0] == e0);
        assert(serves(e[k0], f));
    } else {
        let both = key_at_dir(e0, Direction::Both);
        let pk = key_at_dir(e0, Direction::Positive);
        let nk = key_at_dir(e0, Direction::Negative);
        assert(pk == both + 1);
        let p = w[pk];
        assert(filter_key(p) == pk);
        lemma_key_fields(p, CatchFilter { direction: Direction::Positive, ..e0 });
        assert(key_at_dir(p, Direction::Positive) == pk);
        assert(key_at_dir(p, Direction::Negative) == nk);
        assert(merge_target(w, both));
        assert(e.dom().contains(both));
        let m = merged_pair(w, p);
        assert(e[both] == m);
        assert(m.direction == Direction::Both);
        let n = w[nk];
        assert(k0 == pk || k0 == nk || k0 == both);
        assert(capture_rank(m.capture) >= capture_rank(p.capture));
        assert(capture_rank(m.capture) >= capture_rank(n.capture));
        assert(capture_rank(m.capture) >= capture_rank(e0.capture));
        assert(serves(e[both], f));
    }
}

} // verus!
