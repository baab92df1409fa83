//! Rewrite rules: traffic the box matches in flight and rewrites, answers, refuses or drops, and the
//! checks a rule passes before the host sends it.

use crate::error::{Error, RelativeTo};
use crate::opcode::{
    CATCH_CLS_ANY, CATCH_CLS_CONTROL, CATCH_CLS_HID_IN, CATCH_CLS_HID_OUT, CATCH_CLS_VEND_BULK,
    CATCH_CLS_VEND_INTR, MAX_PAYLOAD, REWRITE_MATCH_MAX,
};
use crate::types::{is_relative, Direction};
use vstd::prelude::*;

verus! {

/// The traffic a rewrite rule addresses.
#[derive(Clone, Copy, Debug, PartialEq, Eq, Hash, Structural)]
pub enum RewriteClass {
    /// HID reports to the game PC.
    HidIn,
    /// HID reports to the real device.
    HidOut,
    /// Vendor interrupt endpoints.
    VendorInterrupt,
    /// Vendor bulk endpoints.
    VendorBulk,
    /// Proxied control transfers.
    Control,
    /// Every class.
    Any,
}

/// The wire byte of a [`RewriteClass`]: its catch class.
pub open spec fn rewrite_class_byte(c: RewriteClass) -> u8 {
    match c {
        RewriteClass::HidIn => CATCH_CLS_HID_IN,
        RewriteClass::HidOut => CATCH_CLS_HID_OUT,
        RewriteClass::VendorInterrupt => CATCH_CLS_VEND_INTR,
        RewriteClass::VendorBulk => CATCH_CLS_VEND_BULK,
        RewriteClass::Control => CATCH_CLS_CONTROL,
        RewriteClass::Any => CATCH_CLS_ANY,
    }
}

impl RewriteClass {
    /// The wire byte.
    pub fn as_u8(self) -> (b: u8)
        ensures
            b == rewrite_class_byte(self),
    {
        match self {
            RewriteClass::HidIn => CATCH_CLS_HID_IN,
            RewriteClass::HidOut => CATCH_CLS_HID_OUT,
            RewriteClass::VendorInterrupt => CATCH_CLS_VEND_INTR,
            RewriteClass::VendorBulk => CATCH_CLS_VEND_BULK,
            RewriteClass::Control => CATCH_CLS_CONTROL,
            RewriteClass::Any => CATCH_CLS_ANY,
        }
    }
}

/// What the box does with matching traffic.
#[derive(Clone, Copy, Debug, PartialEq, Eq, Hash, Structural)]
pub enum RewriteAction {
    /// Let it through untouched (and count it).
    Pass,
    /// Overwrite bytes at an offset.
    Patch,
    /// Replace the whole packet.
    Replace,
    /// Drop it.
    Drop,
    /// Answer a control request with the payload, never forwarding it.
    Answer,
    /// Stall a control request.
    Stall,
    /// NAK a control request.
    Nak,
    /// Forward a control request and patch its reply.
    ReplyPatch,
    /// Forward a control request and replace its reply.
    ReplyReplace,
}

/// The wire byte of a [`RewriteAction`].
pub open spec fn rewrite_action_byte(a: RewriteAction) -> u8 {
    match a {
        RewriteAction::Pass => 0,
        RewriteAction::Patch => 1,
        RewriteAction::Replace => 2,
        RewriteAction::Drop => 3,
        RewriteAction::Answer => 4,
        RewriteAction::Stall => 5,
        RewriteAction::Nak => 6,
        RewriteAction::ReplyPatch => 7,
        RewriteAction::ReplyReplace => 8,
    }
}

/// Whether the box stores a rule of `action` on `class`: passing, patching and replacing anywhere;
/// dropping on a report surface; the control verbs on control transfers only.
pub open spec fn action_valid_for(a: RewriteAction, c: RewriteClass) -> bool {
    match a {
        RewriteAction::Pass | RewriteAction::Patch | RewriteAction::Replace => true,
        RewriteAction::Drop => c != RewriteClass::Control && c != RewriteClass::Any,
        _ => c == RewriteClass::Control,
    }
}

impl RewriteAction {
    /// The wire byte.
    pub fn as_u8(self) -> (b: u8)
        ensures
            b == rewrite_action_byte(self),
    {
        match self {
            RewriteAction::Pass => 0,
            RewriteAction::Patch => 1,
            RewriteAction::Replace => 2,
            RewriteAction::Drop => 3,
            RewriteAction::Answer => 4,
            RewriteAction::Stall => 5,
            RewriteAction::Nak => 6,
            RewriteAction::ReplyPatch => 7,
            RewriteAction::ReplyReplace => 8,
        }
    }

    /// Whether the box stores a rule of this action on `class`.
    pub fn is_valid_for(self, class: RewriteClass) -> (r: bool)
        ensures
            r == action_valid_for(self, class),
    {
        match self {
            RewriteAction::Pass | RewriteAction::Patch | RewriteAction::Replace => true,
            RewriteAction::Drop => class != RewriteClass::Control && class != RewriteClass::Any,
            _ => class == RewriteClass::Control,
        }
    }
}

/// One rewrite rule: where it matches (`class`, `id`, `direction`, and `match` under `mask` at the
/// packet head) and what it does (`action` with `payload` at `offset`).
#[derive(Clone, Debug)]
pub struct RewriteRule {
    /// The traffic class matched.
    pub class: RewriteClass,
    /// The endpoint or request id matched.
    pub id: u16,
    /// The flow matched.
    pub direction: Direction,
    /// What the box does with a match.
    pub action: RewriteAction,
    /// Where a patch writes.
    pub offset: u16,
    /// The bytes compared against the packet head.
    pub match_bytes: Vec<u8>,
    /// Which bits of each match byte count.
    pub mask: Vec<u8>,
    /// What a patch, replace or answer writes.
    pub payload: Vec<u8>,
}

/// Bytes a rule's read-back reply carries ahead of its match, mask and payload.
pub const REWRITE_ENTRY_HDR: usize = 11;
/// The head the box holds of a report for a patch or replace.
pub const REWRITE_HEAD_REPORT: usize = 64;
/// The head the box holds of a control transfer: setup packet and data stage.
pub const REWRITE_HEAD_CONTROL: usize = 2056;

/// The payload bytes a rule with `match_len` match bytes leaves room for in its read-back reply.
pub open spec fn payload_room(match_len: int) -> int {
    MAX_PAYLOAD - REWRITE_ENTRY_HDR - 2 * match_len
}

/// The head cap the box checks a payload of `action` on `class` against, and whether the payload
/// (of `plen` bytes at `off`) is over it.
pub open spec fn head_check(action: RewriteAction, class: RewriteClass, off: int, plen: int) -> (
    bool,
    int,
) {
    let report_cap = if class == RewriteClass::Control {
        REWRITE_HEAD_CONTROL as int
    } else {
        REWRITE_HEAD_REPORT as int
    };
    match action {
        RewriteAction::Patch | RewriteAction::ReplyPatch => (off + plen > report_cap, report_cap),
        RewriteAction::Replace => (plen > report_cap, report_cap),
        RewriteAction::Answer | RewriteAction::ReplyReplace => (
            plen > REWRITE_HEAD_CONTROL,
            REWRITE_HEAD_CONTROL as int,
        ),
        _ => (false, 0),
    }
}

/// The first refusal a rule meets, in the order the checks run; `None` for a rule the box takes.
pub open spec fn rule_error(rule: &RewriteRule) -> Option<Error> {
    let mlen = rule.match_bytes@.len();
    let klen = rule.mask@.len();
    let plen = rule.payload@.len();
    if mlen != klen {
        Some(Error::RewriteMaskLength { match_len: mlen as usize, mask_len: klen as usize })
    } else if mlen > REWRITE_MATCH_MAX {
        Some(Error::RewriteMatchTooLong { len: mlen as usize, limit: REWRITE_MATCH_MAX })
    } else if is_relative(rule.direction) {
        Some(Error::RelativeDirection { direction: rule.direction, what: RelativeTo::RewriteRule })
    } else if !action_valid_for(rule.action, rule.class) {
        Some(Error::RewriteActionClass { action: rule.action, class: rule.class })
    } else if plen > payload_room(mlen as int) {
        Some(
            Error::RewritePayloadTooLarge {
                action: rule.action,
                class: rule.class,
                len: plen as usize,
                offset: rule.offset as usize,
                cap: payload_room(mlen as int) as usize,
            },
        )
    } else if head_check(rule.action, rule.class, rule.offset as int, plen as int).0 {
        Some(
            Error::RewritePayloadTooLarge {
                action: rule.action,
                class: rule.class,
                len: plen as usize,
                offset: rule.offset as usize,
                cap: head_check(rule.action, rule.class, rule.offset as int, plen as int).1 as usize,
            },
        )
    } else {
        None
    }
}

/// What the box refuses a rule for, checked before any frame goes out: match and mask of unequal
/// length, a match past the compared head, a bearing-relative direction, an action the class does
/// not take, or a payload that its read-back reply or the box's head cannot hold.
pub fn validate_rule(rule: &RewriteRule) -> (r: Result<(), Error>)
    ensures
        r == (match rule_error(rule) {
            None => Ok(()),
            Some(e) => Err(e),
        }),
{
    let mlen = rule.match_bytes.len();
    if mlen != rule.mask.len() {
        return Err(Error::RewriteMaskLength { match_len: mlen, mask_len: rule.mask.len() });
    }
    if mlen > REWRITE_MATCH_MAX {
        return Err(Error::RewriteMatchTooLong { len: mlen, limit: REWRITE_MATCH_MAX });
    }
    // The box rejects the bearing-relative pair by range and drops the frame.
    if rule.direction.is_relative() {
        return Err(Error::RelativeDirection { direction: rule.direction, what: RelativeTo::RewriteRule });
    }
    if !rule.action.is_valid_for(rule.class) {
        return Err(Error::RewriteActionClass { action: rule.action, class: rule.class });
    }
    // The read-back reply's header is two bytes wider than the command's, so a rule can fit its
    // frame and still be refused.
    let room = MAX_PAYLOAD - REWRITE_ENTRY_HDR - 2 * mlen;
    let plen = rule.payload.len();
    if plen > room {
        return Err(
            Error::RewritePayloadTooLarge {
                action: rule.action,
                class: rule.class,
                len: plen,
                offset: rule.offset as usize,
                cap: room,
            },
        );
    }
    let off = rule.offset as usize;
    let report_cap = if rule.class == RewriteClass::Control {
        REWRITE_HEAD_CONTROL
    } else {
        REWRITE_HEAD_REPORT
    };
    let (over, cap) = match rule.action {
        RewriteAction::Patch | RewriteAction::ReplyPatch => (off + plen > report_cap, report_cap),
        RewriteAction::Replace => (plen > report_cap, report_cap),
        RewriteAction::Answer | RewriteAction::ReplyReplace => (
            plen > REWRITE_HEAD_CONTROL,
            REWRITE_HEAD_CONTROL,
        ),
        _ => (false, 0),
    };
    if over {
        return Err(
            Error::RewritePayloadTooLarge {
                action: rule.action,
                class: rule.class,
                len: plen,
                offset: off,
                cap,
            },
        );
    }
    Ok(())
}

/// Which actions a class takes: passing, patching and replacing are stored on every class;
/// dropping on every report surface but not on control transfers or the any-class wildcard; the
/// control verbs (answer, stall, NAK, reply patch, reply replace) on control transfers alone.
pub proof fn lemma_action_class_rules(c: RewriteClass)
    ensures
        action_valid_for(RewriteAction::Pass, c),
        action_valid_for(RewriteAction::Patch, c),
        action_valid_for(RewriteAction::Replace, c),
        action_valid_for(RewriteAction::Drop, c) <==> (c != RewriteClass::Control && c != RewriteClass::Any),
        action_valid_for(RewriteAction::Answer, c) <==> c == RewriteClass::Control,
        action_valid_for(RewriteAction::Stall, c) <==> c == RewriteClass::Control,
        action_valid_for(RewriteAction::Nak, c) <==> c == RewriteClass::Control,
        action_valid_for(RewriteAction::ReplyPatch, c) <==> c == RewriteClass::Control,
        action_valid_for(RewriteAction::ReplyReplace, c) <==> c == RewriteClass::Control,
{
}

/// A replacing or passing rule is taken on any class: with match and mask of one length within the
/// compared head, a signed or two-way direction, and a payload a report's head holds, the box
/// refuses nothing.
pub proof fn lemma_replace_rule_taken(rule: &RewriteRule)
    requires
        rule.action == RewriteAction::Replace || rule.action == RewriteAction::Pass,
        rule.match_bytes@.len() == rule.mask@.len(),
        rule.match_bytes@.len() <= REWRITE_MATCH_MAX,
        !is_relative(rule.direction),
        rule.payload@.len() <= REWRITE_HEAD_REPORT,
    ensures
        rule_error(rule) is None,
{
}

} // verus!
