//! One row of the box's lock table as the host tracks it, and the momentary override a program
//! holds on a usage.
//!
//! A lock row holds a scale in each of four slots: the positive and negative signs (press and
//! release edges), and the with- and against-bearing directions. A slot at 100 passes the physical
//! value; a row whose every slot passes is no row at all.

use crate::opcode::{
    LOCK_DIR_AGAINST, LOCK_DIR_BOTH, LOCK_DIR_NEG, LOCK_DIR_POS, LOCK_DIR_WITH, LOCK_SCALE_PASS,
};
use crate::types::Action;
use vstd::prelude::*;

verus! {

/// What a program holds on a momentary usage: nothing, a press, or a forced release.
#[derive(Debug, Clone, Copy, PartialEq, Eq, Structural)]
pub enum Override {
    /// Nothing held.
    Idle,
    /// Held pressed.
    Press,
    /// Held released, masking a physical hold.
    Force,
}

/// The action that re-asserts an override; none for an idle one.
pub open spec fn override_action(o: Override) -> Option<Action> {
    match o {
        Override::Idle => None,
        Override::Press => Some(Action::Press),
        Override::Force => Some(Action::ForceRelease),
    }
}

/// The override an action leaves held: a soft release leaves nothing.
pub open spec fn override_of(a: Action) -> Override {
    match a {
        Action::Press => Override::Press,
        Action::ForceRelease => Override::Force,
        Action::SoftRelease => Override::Idle,
    }
}

impl Default for Override {
    fn default() -> (o: Override)
        ensures
            o == Override::Idle,
    {
        Override::Idle
    }
}

impl Override {
    /// The action that re-asserts this override; none for an idle one.
    pub fn as_action(self) -> (r: Option<Action>)
        ensures
            r == override_action(self),
    {
        match self {
            Override::Idle => None,
            Override::Press => Some(Action::Press),
            Override::Force => Some(Action::ForceRelease),
        }
    }

    /// The override `action` leaves held.
    pub fn applied(action: Action) -> (o: Override)
        ensures
            o == override_of(action),
    {
        match action {
            Action::Press => Override::Press,
            Action::ForceRelease => Override::Force,
            Action::SoftRelease => Override::Idle,
        }
    }
}

/// The four scales one lock-table row holds.
#[derive(Debug, Clone, Copy, PartialEq, Eq, Structural)]
pub struct Slots {
    /// The positive sign, or the press edge.
    pub pos: i16,
    /// The negative sign, or the release edge.
    pub neg: i16,
    /// Along the bearing.
    pub with: i16,
    /// Against the bearing.
    pub against: i16,
}

/// A row whose every slot passes.
pub open spec fn pass_row() -> Slots {
    Slots {
        pos: LOCK_SCALE_PASS,
        neg: LOCK_SCALE_PASS,
        with: LOCK_SCALE_PASS,
        against: LOCK_SCALE_PASS,
    }
}

/// A lock of `dir` at `scale` written onto a row: `Both` sets the two signs and clears the bearing
/// slots, a named direction sets its own slot, and an unknown direction changes nothing.
pub open spec fn slots_write(s: Slots, dir: u8, scale: i16) -> Slots {
    if dir == LOCK_DIR_BOTH {
        Slots { pos: scale, neg: scale, with: LOCK_SCALE_PASS, against: LOCK_SCALE_PASS }
    } else if dir == LOCK_DIR_POS {
        Slots { pos: scale, ..s }
    } else if dir == LOCK_DIR_NEG {
        Slots { neg: scale, ..s }
    } else if dir == LOCK_DIR_WITH {
        Slots { with: scale, ..s }
    } else if dir == LOCK_DIR_AGAINST {
        Slots { against: scale, ..s }
    } else {
        s
    }
}

/// Whether every slot passes.
pub open spec fn slots_clear(s: Slots) -> bool {
    s == pass_row()
}

/// One command for a slot that does not pass, none for one that does.
pub open spec fn slot_command(dir: u8, scale: i16) -> Seq<(u8, i16)> {
    if scale != LOCK_SCALE_PASS {
        seq![(dir, scale)]
    } else {
        Seq::empty()
    }
}

/// The fewest lock commands that rebuild a row on a box holding nothing: when the two signs agree
/// on a scale that does not pass, one `Both` and then each bearing slot that does not pass; else one
/// command per slot that does not pass, in slot order.
pub open spec fn slots_commands(s: Slots) -> Seq<(u8, i16)> {
    if s.pos == s.neg && s.pos != LOCK_SCALE_PASS {
        seq![(LOCK_DIR_BOTH, s.pos)] + slot_command(LOCK_DIR_WITH, s.with) + slot_command(
            LOCK_DIR_AGAINST,
            s.against,
        )
    } else {
        slot_command(LOCK_DIR_POS, s.pos) + slot_command(LOCK_DIR_NEG, s.neg) + slot_command(
            LOCK_DIR_WITH,
            s.with,
        ) + slot_command(LOCK_DIR_AGAINST, s.against)
    }
}

/// How many commands a row needs at the least: one for the two signs when they agree on a scale
/// that does not pass, else one per sign that does not pass; and one per bearing slot that does not
/// pass.
pub open spec fn row_cost(s: Slots) -> int {
    (if s.pos == s.neg && s.pos != LOCK_SCALE_PASS {
        1int
    } else {
        (if s.pos != LOCK_SCALE_PASS { 1int } else { 0int }) + (if s.neg != LOCK_SCALE_PASS {
            1int
        } else {
            0int
        })
    }) + (if s.with != LOCK_SCALE_PASS { 1int } else { 0int }) + (if s.against != LOCK_SCALE_PASS {
        1int
    } else {
        0int
    })
}

/// Lock commands written onto a row, in order.
pub open spec fn replay(s: Slots, cmds: Seq<(u8, i16)>) -> Slots
    decreases cmds.len(),
{
    if cmds.len() == 0 {
        s
    } else {
        slots_write(replay(s, cmds.drop_last()), cmds.last().0, cmds.last().1)
    }
}

/// Replaying a row's commands onto a box holding nothing rebuilds exactly that row, and a row
/// needs no command just when it is clear.
pub proof fn lemma_commands_rebuild_row(s: Slots)
    ensures
        replay(pass_row(), slots_commands(s)) == s,
        (slots_commands(s).len() == 0) == slots_clear(s),
        slots_commands(s).len() == row_cost(s),
{
    let c = slots_commands(s);
    reveal_with_fuel(replay, 5);
    let w = slot_command(LOCK_DIR_WITH, s.with);
    let g = slot_command(LOCK_DIR_AGAINST, s.against);
    if s.pos == s.neg && s.pos != LOCK_SCALE_PASS {
        let h = seq![(LOCK_DIR_BOTH, s.pos)];
        let hw = h + w;
        assert(c == hw + g);
        assert(h.drop_last() =~= Seq::<(u8, i16)>::empty());
        assert(replay(pass_row(), h) == Slots { pos: s.pos, neg: s.neg, ..pass_row() });
        assert(replay(pass_row(), hw) == Slots { against: LOCK_SCALE_PASS, ..s }) by {
            if s.with != LOCK_SCALE_PASS {
                assert(hw.drop_last() =~= h);
            } else {
                assert(hw =~= h);
            }
        }
        if s.against != LOCK_SCALE_PASS {
            assert(c.drop_last() =~= hw);
        } else {
            assert(c =~= hw);
        }
    } else {
        let a = slot_command(LOCK_DIR_POS, s.pos);
        let b = slot_command(LOCK_DIR_NEG, s.neg);
        let ab = a + b;
        let abw = ab + w;
        assert(c == abw + g);
        assert(replay(pass_row(), a) == Slots { pos: s.pos, ..pass_row() }) by {
            if s.pos != LOCK_SCALE_PASS {
                assert(a.drop_last() =~= Seq::<(u8, i16)>::empty());
            }
        }
        assert(replay(pass_row(), ab) == Slots { pos: s.pos, neg: s.neg, ..pass_row() }) by {
            if s.neg != LOCK_SCALE_PASS {
                assert(ab.drop_last() =~= a);
            } else {
                assert(ab =~= a);
            }
        }
        assert(replay(pass_row(), abw) == Slots { against: LOCK_SCALE_PASS, ..s }) by {
            if s.with != LOCK_SCALE_PASS {
                assert(abw.drop_last() =~= ab);
            } else {
                assert(abw =~= ab);
            }
        }
        if s.against != LOCK_SCALE_PASS {
            assert(c.drop_last() =~= abw);
        } else {
            assert(c =~= abw);
        }
    }
}

/// One command raises a row's least command count by one at most.
proof fn lemma_write_cost(r: Slots, dir: u8, scale: i16)
    ensures
        row_cost(slots_write(r, dir, scale)) <= row_cost(r) + 1,
{
}

/// Commands written onto a clear row leave it needing no more commands than were written.
proof fn lemma_replay_cost(cmds: Seq<(u8, i16)>)
    ensures
        row_cost(replay(pass_row(), cmds)) <= cmds.len(),
    decreases cmds.len(),
{
    if cmds.len() > 0 {
        lemma_replay_cost(cmds.drop_last());
        lemma_write_cost(replay(pass_row(), cmds.drop_last()), cmds.last().0, cmds.last().1);
    }
}

/// A row's commands are the fewest: any run of lock commands that rebuilds the row on a box
/// holding nothing has at least as many.
pub proof fn lemma_commands_fewest(s: Slots, cmds: Seq<(u8, i16)>)
    requires
        replay(pass_row(), cmds) == s,
    ensures
        slots_commands(s).len() <= cmds.len(),
{
    lemma_commands_rebuild_row(s);
    lemma_replay_cost(cmds);
}

/// The lock-table key of a `(class, id)` row, packed so that the integer order is the tuple order.
pub open spec fn row_key(class: u8, id: u16) -> u64 {
    (class as int * 0x10000 + id as int) as u64
}

/// The class a row key carries.
pub open spec fn key_class(k: u64) -> int {
    k as int / 0x10000
}

/// The id a row key carries.
pub open spec fn key_id(k: u64) -> int {
    k as int % 0x10000
}

/// A row key names its class and id, and no other key does.
pub proof fn lemma_row_key(k: u64, class: u8, id: u16)
    ensures
        key_class(row_key(class, id)) == class,
        key_id(row_key(class, id)) == id,
        (k == row_key(class, id)) == (key_class(k) == class && key_id(k) == id),
        row_key(class, id) == class as int * 0x10000 + id as int,
{
    assert(class as int * 0x10000 + id as int <= 0xFFFFFF);
    assert((class as int * 0x10000 + id as int) / 0x10000 == class) by (nonlinear_arith)
        requires
            0 <= id < 0x10000,
            0 <= class,
    ;
    assert((class as int * 0x10000 + id as int) % 0x10000 == id) by (nonlinear_arith)
        requires
            0 <= id < 0x10000,
            0 <= class,
    ;
    assert(k as int == (k as int / 0x10000) * 0x10000 + k as int % 0x10000) by (nonlinear_arith);
}

/// Any key splits into its class and id parts.
pub proof fn lemma_key_parts(k: u64)
    ensures
        0 <= key_id(k) < 0x10000,
        0 <= key_class(k),
        k as int == key_class(k) * 0x10000 + key_id(k),
{
    assert(k as int == (k as int / 0x10000) * 0x10000 + k as int % 0x10000) by (nonlinear_arith);
}

/// The key of the `(class, id)` row.
pub fn make_row_key(class: u8, id: u16) -> (k: u64)
    ensures
        k == row_key(class, id),
{
    proof {
        lemma_row_key(0, class, id);
    }
    (class as u64) * 0x10000 + (id as u64)
}

/// The `(class, id)` a row key carries.
pub fn split_row_key(k: u64) -> (r: (u8, u16))
    requires
        k < 0x1000000,
    ensures
        r.0 == key_class(k),
        r.1 == key_id(k),
        k == row_key(r.0, r.1),
{
    let class = (k / 0x10000) as u8;
    let id = (k % 0x10000) as u16;
    proof {
        lemma_row_key(k, class, id);
    }
    (class, id)
}

impl Default for Slots {
    fn default() -> (s: Slots)
        ensures
            s == pass_row(),
    {
        Slots {
            pos: LOCK_SCALE_PASS,
            neg: LOCK_SCALE_PASS,
            with: LOCK_SCALE_PASS,
            against: LOCK_SCALE_PASS,
        }
    }
}

impl Slots {
    /// Write a lock of `dir` at `scale` onto this row.
    pub fn write(&mut self, dir: u8, scale: i16)
        ensures
            *final(self) == slots_write(*old(self), dir, scale),
    {
        if dir == LOCK_DIR_BOTH {
            *self = Slots {
                pos: scale,
                neg: scale,
                with: LOCK_SCALE_PASS,
                against: LOCK_SCALE_PASS,
            };
        } else if dir == LOCK_DIR_POS {
            self.pos = scale;
        } else if dir == LOCK_DIR_NEG {
            self.neg = scale;
        } else if dir == LOCK_DIR_WITH {
            self.with = scale;
        } else if dir == LOCK_DIR_AGAINST {
            self.against = scale;
        }
    }

    /// Whether every slot passes.
    pub fn is_clear(self) -> (r: bool)
        ensures
            r == slots_clear(self),
    {
        self.pos == LOCK_SCALE_PASS && self.neg == LOCK_SCALE_PASS && self.with == LOCK_SCALE_PASS
            && self.against == LOCK_SCALE_PASS
    }

    /// The fewest lock commands that rebuild this row on a box holding nothing.
    pub fn commands(self) -> (v: Vec<(u8, i16)>)
        ensures
            v@ == slots_commands(self),
    {
        let mut v: Vec<(u8, i16)> = Vec::new();
        if self.pos == self.neg && self.pos != LOCK_SCALE_PASS {
            v.push((LOCK_DIR_BOTH, self.pos));
        } else {
            if self.pos != LOCK_SCALE_PASS {
                v.push((LOCK_DIR_POS, self.pos));
            }
            if self.neg != LOCK_SCALE_PASS {
                v.push((LOCK_DIR_NEG, self.neg));
            }
        }
        let ghost head = v@;
        if self.with != LOCK_SCALE_PASS {
            v.push((LOCK_DIR_WITH, self.with));
        }
        assert(v@ =~= head + slot_command(LOCK_DIR_WITH, self.with));
        let ghost hw = v@;
        if self.against != LOCK_SCALE_PASS {
            v.push((LOCK_DIR_AGAINST, self.against));
        }
        assert(v@ =~= hw + slot_command(LOCK_DIR_AGAINST, self.against));
        if self.pos == self.neg && self.pos != LOCK_SCALE_PASS {
            assert(head =~= seq![(LOCK_DIR_BOTH, self.pos)]);
        } else {
            assert(head =~= slot_command(LOCK_DIR_POS, self.pos) + slot_command(LOCK_DIR_NEG, self.neg));
        }
        assert(v@ =~= slots_commands(self));
        v
    }
}

} // verus!
