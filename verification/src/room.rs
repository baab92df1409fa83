//! Room in the box's tables for rewrite rules and field transforms, costed as the box costs
//! them: a rule's payload against the shared pool less what the rule it overwrites frees, then the
//! entry count for a new key; a transform against the entry count for a new key.

use crate::bytes::copy_bytes;
use crate::error::Error;
use crate::opcode::{REWRITE_MAX_ENTRIES, REWRITE_PAYLOAD_POOL, TRANSFORM_MAX_ENTRIES};
use crate::reconcile::{pool_used, DesiredState};
use crate::rewrite::{rewrite_action_byte, rewrite_class_byte, RewriteRule};
use crate::rules::{
    rewrite_key_fn, rewrite_key_of, rewrite_key_view, rewrite_view, transform_key_fn, transform_key_of,
    RewriteKey, RewriteSpec, StoredRewrite, StoredTransform,
};
use crate::transform::{transform_op_byte, Transform};
use crate::types::{direction_byte, target_class_id};
use vstd::prelude::*;

verus! {

/// A rule in the wire fields the host holds it in.
pub open spec fn stored_view(rule: RewriteRule) -> RewriteSpec {
    (
        rewrite_class_byte(rule.class),
        rule.id,
        direction_byte(rule.direction),
        rewrite_action_byte(rule.action),
        rule.offset,
        rule.match_bytes@,
        rule.mask@,
        rule.payload@,
    )
}

/// A rule in wire fields, as held for replay.
pub fn to_stored(rule: &RewriteRule) -> (s: StoredRewrite)
    ensures
        rewrite_view(s) == stored_view(*rule),
{
    StoredRewrite {
        class: rule.class.as_u8(),
        id: rule.id,
        direction: rule.direction.as_u8(),
        action: rule.action.as_u8(),
        offset: rule.offset,
        match_bytes: copy_bytes(&rule.match_bytes),
        mask: copy_bytes(&rule.mask),
        payload: copy_bytes(&rule.payload),
    }
}

/// A transform in wire fields.
pub open spec fn transform_stored_view(t: Transform) -> StoredTransform {
    StoredTransform {
        op: transform_op_byte(t.op),
        sclass: target_class_id(t.source).0,
        sid: target_class_id(t.source).1,
        dclass: target_class_id(t.dest).0,
        did: target_class_id(t.dest).1,
    }
}

/// A transform in wire fields, as held for replay.
pub fn transform_to_stored(t: &Transform) -> (s: StoredTransform)
    ensures
        s == transform_stored_view(*t),
{
    let (sclass, sid) = t.source.class_id();
    let (dclass, did) = t.dest.class_id();
    StoredTransform { op: t.op.as_u8(), sclass, sid, dclass, did }
}

/// The pool bytes left for a rule under key `k`: the pool less what every other held rule takes.
pub open spec fn pool_free(held: Seq<RewriteSpec>, k: (u8, u16, u8, Seq<u8>, Seq<u8>)) -> int {
    let used = pool_used(held, k);
    if used >= REWRITE_PAYLOAD_POOL {
        0
    } else {
        REWRITE_PAYLOAD_POOL - used
    }
}

/// Why the box would refuse a rule for room, if it would: its payload past the pool left, or a new
/// key past the entry ceiling.
pub open spec fn rewrite_room_error(held: Seq<RewriteSpec>, rule: RewriteRule) -> Option<Error> {
    let k = rewrite_key_of(stored_view(rule));
    let free = pool_free(held, k);
    if rule.payload@.len() > free {
        Some(Error::RewritePoolFull {
            len: rule.payload@.len() as usize,
            free: free as usize,
            limit: REWRITE_PAYLOAD_POOL,
        })
    } else if !crate::rules::has_key(held, rewrite_key_fn(), k) && held.len() >= REWRITE_MAX_ENTRIES {
        Some(Error::RewriteTableFull { limit: REWRITE_MAX_ENTRIES })
    } else {
        None
    }
}

/// Whether the box has room for `rule` beside the rules held.
pub fn check_rewrite_room(d: &DesiredState, rule: &RewriteRule) -> (r: Result<(), Error>)
    requires
        d.wf(),
    ensures
        r == (match rewrite_room_error(d.rewrites(), *rule) {
            None => Ok(()),
            Some(e) => Err::<(), Error>(e),
        }),
{
    let stored = to_stored(rule);
    let key = stored.key();
    assert(rewrite_key_view(key) == rewrite_key_of(stored_view(*rule)));
    let used = d.rewrite_pool_used_except(&key);
    let free: usize = if used >= REWRITE_PAYLOAD_POOL { 0 } else { REWRITE_PAYLOAD_POOL - used };
    if rule.payload.len() > free {
        return Err(Error::RewritePoolFull { len: rule.payload.len(), free, limit: REWRITE_PAYLOAD_POOL });
    }
    if !d.holds_rewrite(&key) && d.rewrite_count() >= REWRITE_MAX_ENTRIES {
        return Err(Error::RewriteTableFull { limit: REWRITE_MAX_ENTRIES });
    }
    Ok(())
}

/// Whether the box has room for `t` beside the transforms held: a new key past the entry ceiling is
/// refused.
pub fn check_transform_room(d: &DesiredState, t: &Transform) -> (r: Result<(), Error>)
    requires
        d.wf(),
    ensures
        r is Err <==> (!crate::rules::has_key(
            d.transforms(),
            transform_key_fn(),
            transform_key_of(transform_stored_view(*t)),
        ) && d.transforms().len() >= TRANSFORM_MAX_ENTRIES),
        r matches Err(e) ==> e == (Error::TransformTableFull { limit: TRANSFORM_MAX_ENTRIES }),
{
    let stored = transform_to_stored(t);
    if !d.holds_transform(stored.key()) && d.transform_count() >= TRANSFORM_MAX_ENTRIES {
        return Err(Error::TransformTableFull { limit: TRANSFORM_MAX_ENTRIES });
    }
    Ok(())
}

/// The key a rule removal names: its `(class, id, direction, match, mask)`, refused when match and
/// mask differ in length (no rule could carry such a key).
pub fn removal_key(rule: &RewriteRule) -> (r: Result<RewriteKey, Error>)
    ensures
        rule.match_bytes@.len() != rule.mask@.len() ==> r == Err::<RewriteKey, Error>(
            Error::RewriteMaskLength {
                match_len: rule.match_bytes@.len() as usize,
                mask_len: rule.mask@.len() as usize,
            },
        ),
        rule.match_bytes@.len() == rule.mask@.len() ==> (r matches Ok(k) && rewrite_key_view(k)
            == rewrite_key_of(stored_view(*rule))),
{
    if rule.match_bytes.len() != rule.mask.len() {
        return Err(Error::RewriteMaskLength { match_len: rule.match_bytes.len(), mask_len: rule.mask.len() });
    }
    Ok(to_stored(rule).key())
}

/// The box drops an advanced-layer frame with no reply while imperfect clones are not allowed, so
/// such a setter checks the opt-in first: refused unless `allowed`.
pub fn require_imperfect(allowed: bool) -> (r: Result<(), Error>)
    ensures
        allowed ==> r is Ok,
        !allowed ==> r == Err::<(), Error>(Error::ImperfectRequired),
{
    if allowed {
        Ok(())
    } else {
        Err(Error::ImperfectRequired)
    }
}

} // verus!
