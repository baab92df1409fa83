//! Field transforms: swap two axes or remap a source field onto a destination, and the class pairs
//! the box takes.

use crate::error::Error;
use crate::opcode::{LOCK_CLS_AXIS, LOCK_CLS_BTN, LOCK_CLS_KEY, LOCK_CLS_MEDIA, TF_REMAP, TF_SWAP};
use crate::types::{target_class_id, Axis, Class, LockTarget, Usage};
use vstd::prelude::*;

verus! {

/// How a transform moves its fields.
#[derive(Clone, Copy, Debug, PartialEq, Eq, Hash, Structural)]
pub enum TransformOp {
    /// Exchange two axes.
    Swap,
    /// Move a source field onto a destination.
    Remap,
}

/// The wire byte of a [`TransformOp`].
pub open spec fn transform_op_byte(op: TransformOp) -> u8 {
    match op {
        TransformOp::Swap => TF_SWAP,
        TransformOp::Remap => TF_REMAP,
    }
}

/// Whether the box takes `op` from `(sc, si)` to `(dc, di)`: never one field as both ends; a swap
/// takes two axes; a remap axis to axis, button to button, button to key or button to media.
pub open spec fn pair_ok(op: TransformOp, sc: u8, si: u16, dc: u8, di: u16) -> bool {
    if sc == dc && si == di {
        false
    } else {
        match op {
            TransformOp::Swap => sc == LOCK_CLS_AXIS && dc == LOCK_CLS_AXIS,
            TransformOp::Remap => (sc == LOCK_CLS_AXIS && dc == LOCK_CLS_AXIS) || (sc
                == LOCK_CLS_BTN && dc == LOCK_CLS_BTN) || (sc == LOCK_CLS_BTN && dc
                == LOCK_CLS_KEY) || (sc == LOCK_CLS_BTN && dc == LOCK_CLS_MEDIA),
        }
    }
}

/// Whether `op` can move `src` onto `dst`.
pub open spec fn op_admits(op: TransformOp, src: LockTarget, dst: LockTarget) -> bool {
    pair_ok(op, target_class_id(src).0, target_class_id(src).1, target_class_id(dst).0,
        target_class_id(dst).1)
}

impl TransformOp {
    /// The wire byte.
    pub fn as_u8(self) -> (b: u8)
        ensures
            b == transform_op_byte(self),
    {
        match self {
            TransformOp::Swap => TF_SWAP,
            TransformOp::Remap => TF_REMAP,
        }
    }

    /// Whether this op can move `src` onto `dst`.
    pub fn admits(self, src: LockTarget, dst: LockTarget) -> (r: bool)
        ensures
            r == op_admits(self, src, dst),
    {
        let (sc, si) = src.class_id();
        let (dc, di) = dst.class_id();
        if sc == dc && si == di {
            return false;
        }
        match self {
            TransformOp::Swap => sc == LOCK_CLS_AXIS && dc == LOCK_CLS_AXIS,
            TransformOp::Remap => (sc == LOCK_CLS_AXIS && dc == LOCK_CLS_AXIS) || (sc == LOCK_CLS_BTN
                && dc == LOCK_CLS_BTN) || (sc == LOCK_CLS_BTN && dc == LOCK_CLS_KEY) || (sc
                == LOCK_CLS_BTN && dc == LOCK_CLS_MEDIA),
        }
    }
}

/// One field transform.
#[derive(Clone, Copy, Debug, PartialEq, Eq, Hash, Structural)]
pub struct Transform {
    /// How the fields move.
    pub op: TransformOp,
    /// The field read.
    pub source: LockTarget,
    /// The field written.
    pub dest: LockTarget,
}

impl Transform {
    /// Exchange two axes.
    pub fn swap(a: Axis, b: Axis) -> (t: Transform)
        ensures
            t == (Transform { op: TransformOp::Swap, source: LockTarget::Axis(a), dest: LockTarget::Axis(b) }),
    {
        Transform { op: TransformOp::Swap, source: LockTarget::Axis(a), dest: LockTarget::Axis(b) }
    }

    /// Move `source` onto `dest`.
    pub fn remap(source: LockTarget, dest: LockTarget) -> (t: Transform)
        ensures
            t == (Transform { op: TransformOp::Remap, source, dest }),
    {
        Transform { op: TransformOp::Remap, source, dest }
    }
}

/// The box's own check of a transform: an op a class pair cannot take, one field as both ends
/// included, is refused. Which fields the clone declares is for the box to check.
pub fn validate_transform(t: &Transform) -> (r: Result<(), Error>)
    ensures
        r is Ok <==> op_admits(t.op, t.source, t.dest),
        r matches Err(e) ==> e == (Error::TransformOpFields { op: t.op, src: t.source, dst: t.dest }),
{
    if !t.op.admits(t.source, t.dest) {
        return Err(Error::TransformOpFields { op: t.op, src: t.source, dst: t.dest });
    }
    Ok(())
}

/// The pairs the box's transform table takes: any two different axes swap or remap onto each
/// other; a button remaps onto another button, onto any key and onto any media usage; no field is
/// moved onto itself, and nothing but two axes swaps.
pub proof fn lemma_transform_table(a: Axis, b: Axis, x: u16, y: u16, op: TransformOp, t: LockTarget)
    ensures
        a != b ==> op_admits(TransformOp::Swap, LockTarget::Axis(a), LockTarget::Axis(b)),
        a != b ==> op_admits(TransformOp::Remap, LockTarget::Axis(a), LockTarget::Axis(b)),
        x != y ==> op_admits(
            TransformOp::Remap,
            LockTarget::Usage(Usage { class: Class::Button, id: x }),
            LockTarget::Usage(Usage { class: Class::Button, id: y }),
        ),
        op_admits(
            TransformOp::Remap,
            LockTarget::Usage(Usage { class: Class::Button, id: x }),
            LockTarget::Usage(Usage { class: Class::Key, id: y }),
        ),
        op_admits(
            TransformOp::Remap,
            LockTarget::Usage(Usage { class: Class::Button, id: x }),
            LockTarget::Usage(Usage { class: Class::Media, id: y }),
        ),
        !op_admits(op, t, t),
        !op_admits(TransformOp::Swap, LockTarget::Usage(Usage { class: Class::Button, id: x }), t),
{
}

} // verus!
