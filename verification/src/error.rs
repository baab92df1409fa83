//! The crate-wide structured error type.
//!
//! Every failure the control plane can surface has its own variant, so callers can match on it:
//! a handshake `NoReply` is not a wrong `BadProtoVer` is not a port that is simply absent,
//! `NotFound`. Transport and OS failures are carried through as `Io`.
//!
//! A frame with a bad CRC is not represented here: the decoder drops it and counts it.

use crate::catch::CatchClass;
use crate::opcode::{
    CLIP_ENTRY_MAX, MAX_PAYLOAD, OTA_OP_ABORT, OTA_OP_ACTIVATE, OTA_OP_BEGIN, OTA_OP_DATA,
    OTA_OP_END, PROTO_VER, UPD_BAD_DIGEST, UPD_BAD_STATE, UPD_BUSY, UPD_ON_PROBATION, UPD_SEQ_GAP,
    UPD_TOO_BIG,
};
use crate::rewrite::{RewriteAction, RewriteClass};
use crate::text::{decimal, hex_digits, push_decimal, push_hex, push_signed, signed_decimal};
use crate::transform::TransformOp;
use crate::types::{Axis, Class, Direction, LockTarget, UpdateStatus};
use vstd::prelude::*;
use vstd::std_specs::convert::FromSpecImpl;
use vstd::string::StringExecFns;

verus! {

/// The operating-system error type the transport reports.
#[verifier::external_type_specification]
#[verifier::external_body]
pub struct ExIoError(std::io::Error);

/// What a bearing-relative direction was refused on.
#[derive(Clone, Copy, Debug, PartialEq, Eq, Hash, Structural)]
pub enum RelativeTo {
    CatchSubscription,
    RawEndpoint,
    RewriteRule,
    ButtonLock,
    KeyLock,
    MediaLock,
}

/// What a clip frame holds too many of.
#[derive(Clone, Copy, Debug, PartialEq, Eq, Hash, Structural)]
pub enum ClipItem {
    Edges,
    RawReports,
}

/// The pure frame encoder's error: a payload past the link's maximum.
#[derive(Clone, Copy, Debug, PartialEq, Eq, Hash, Structural)]
pub enum FrameError {
    /// The payload is `len` bytes, over the maximum.
    PayloadTooLong { len: usize },
}

/// The crate-wide error type.
#[derive(Debug)]
#[non_exhaustive]
#[allow(inconsistent_fields)]
pub enum Error {
    /// An I/O or OS error from the transport.
    Io(std::io::Error),
    /// No serial port matched the medius VID/PID.
    NotFound,
    /// The box never answered the version probe.
    NoReply,
    /// The box speaks a protocol version this library does not.
    BadProtoVer { got: u8 },
    /// A query's reply did not arrive within the query timeout.
    QueryTimeout,
    /// The serial port vanished mid-session.
    Disconnected,
    /// An outbound payload exceeded the maximum frame payload.
    FrameTooLong,
    /// A lock scale outside the range the box takes.
    LockScaleRange { scale: i16, min: i16, max: i16 },
    /// A reversing scale on a one-bit usage class.
    LockScaleUsage { scale: i16, class: u8 },
    /// The subscriptions need more catch entries than the box holds.
    CatchTableFull { needed: usize, limit: usize },
    /// A subscription with no filter.
    EmptySubscription,
    /// Advanced control with the imperfect-clone opt-in off.
    ImperfectRequired,
    /// A rewrite match and mask of different lengths.
    RewriteMaskLength { match_len: usize, mask_len: usize },
    /// A rewrite match longer than the head the box compares.
    RewriteMatchTooLong { len: usize, limit: usize },
    /// Every rewrite slot is taken.
    RewriteTableFull { limit: usize },
    /// A rewrite payload past what the pool has left.
    RewritePoolFull { len: usize, free: usize, limit: usize },
    /// A rewrite action the class does not take.
    RewriteActionClass { action: RewriteAction, class: RewriteClass },
    /// A rewrite payload past the head the box holds.
    RewritePayloadTooLarge {
        action: RewriteAction,
        class: RewriteClass,
        len: usize,
        offset: usize,
        cap: usize,
    },
    /// A transform op that cannot address this pair of fields.
    TransformOpFields { op: TransformOp, src: LockTarget, dst: LockTarget },
    /// Every transform slot is taken.
    TransformTableFull { limit: usize },
    /// A capture on a class that arrives decoded.
    CaptureNotApplicable { class: CatchClass },
    /// A traffic class asked for as input edges.
    NotAnInputFilter { class: CatchClass },
    /// The every-class wildcard asked for as input edges.
    WildcardNotInput,
    /// A bearing-relative direction where none applies.
    RelativeDirection { direction: Direction, what: RelativeTo },
    /// A raw injection direction that is neither IN nor OUT.
    RawDirection { direction: Direction },
    /// A clip frame past an edge or raw-report count.
    ClipFrameCount { what: ClipItem, count: usize, limit: usize },
    /// A clip frame that encodes past one append.
    ClipFrameTooLong { len: usize },
    /// A clip transfer whose data does not match its setup packet.
    ClipTransferData { want: usize, got: usize },
    /// A clip packet trigger the box would not take, and why.
    ClipPacketTrigger { reason: &'static str },
    /// An exact subscription to the blanket id.
    ReservedId { class: CatchClass, id: u16 },
    /// An input subscription covering one edge only.
    HalfEdgeInputFilter,
    /// A firmware-update op the box refused.
    Update { op: u8, status: UpdateStatus, arg: u32 },
    /// The flashing tool failed; its report.
    FlashTool(String),
}

impl From<FrameError> for Error {
    fn from(err: FrameError) -> (e: Error) {
        match err {
            FrameError::PayloadTooLong { .. } => Error::FrameTooLong,
        }
    }
}

impl FromSpecImpl<FrameError> for Error {
    open spec fn obeys_from_spec() -> bool {
        true
    }

    open spec fn from_spec(v: FrameError) -> Error {
        Error::FrameTooLong
    }
}

impl From<std::io::Error> for Error {
    fn from(err: std::io::Error) -> (e: Error) {
        Error::Io(err)
    }
}

impl FromSpecImpl<std::io::Error> for Error {
    open spec fn obeys_from_spec() -> bool {
        true
    }

    open spec fn from_spec(v: std::io::Error) -> Error {
        Error::Io(v)
    }
}

/// Trusted: `<std::io::Error as Display>::to_string`. The text is the OS's and is not claimed.
#[verifier::external_body]
fn io_error_text(e: &std::io::Error) -> (s: String) {
    e.to_string()
}

/// A class's name.
pub open spec fn catch_class_name(c: CatchClass) -> Seq<char> {
    match c {
        CatchClass::Axis => "Axis"@,
        CatchClass::Button => "Button"@,
        CatchClass::Key => "Key"@,
        CatchClass::Media => "Media"@,
        CatchClass::HidIn => "HidIn"@,
        CatchClass::HidOut => "HidOut"@,
        CatchClass::VendorInterrupt => "VendorInterrupt"@,
        CatchClass::VendorBulk => "VendorBulk"@,
        CatchClass::Control => "Control"@,
        CatchClass::Emit => "Emit"@,
        CatchClass::Bus => "Bus"@,
    }
}

fn catch_class_str(c: CatchClass) -> (r: &'static str)
    ensures
        r@ == catch_class_name(c),
{
    match c {
        CatchClass::Axis => "Axis",
        CatchClass::Button => "Button",
        CatchClass::Key => "Key",
        CatchClass::Media => "Media",
        CatchClass::HidIn => "HidIn",
        CatchClass::HidOut => "HidOut",
        CatchClass::VendorInterrupt => "VendorInterrupt",
        CatchClass::VendorBulk => "VendorBulk",
        CatchClass::Control => "Control",
        CatchClass::Emit => "Emit",
        CatchClass::Bus => "Bus",
    }
}

/// A direction's name.
pub open spec fn direction_name(d: Direction) -> Seq<char> {
    match d {
        Direction::Both => "Both"@,
        Direction::Positive => "Positive"@,
        Direction::Negative => "Negative"@,
        Direction::With => "With"@,
        Direction::Against => "Against"@,
    }
}

fn direction_str(d: Direction) -> (r: &'static str)
    ensures
        r@ == direction_name(d),
{
    match d {
        Direction::Both => "Both",
        Direction::Positive => "Positive",
        Direction::Negative => "Negative",
        Direction::With => "With",
        Direction::Against => "Against",
    }
}

/// A rewrite action's name.
pub open spec fn rewrite_action_name(a: RewriteAction) -> Seq<char> {
    match a {
        RewriteAction::Pass => "Pass"@,
        RewriteAction::Patch => "Patch"@,
        RewriteAction::Replace => "Replace"@,
        RewriteAction::Drop => "Drop"@,
        RewriteAction::Answer => "Answer"@,
        RewriteAction::Stall => "Stall"@,
        RewriteAction::Nak => "Nak"@,
        RewriteAction::ReplyPatch => "ReplyPatch"@,
        RewriteAction::ReplyReplace => "ReplyReplace"@,
    }
}

fn rewrite_action_str(a: RewriteAction) -> (r: &'static str)
    ensures
        r@ == rewrite_action_name(a),
{
    match a {
        RewriteAction::Pass => "Pass",
        RewriteAction::Patch => "Patch",
        RewriteAction::Replace => "Replace",
        RewriteAction::Drop => "Drop",
        RewriteAction::Answer => "Answer",
        RewriteAction::Stall => "Stall",
        RewriteAction::Nak => "Nak",
        RewriteAction::ReplyPatch => "ReplyPatch",
        RewriteAction::ReplyReplace => "ReplyReplace",
    }
}

/// A rewrite class's name.
pub open spec fn rewrite_class_name(c: RewriteClass) -> Seq<char> {
    match c {
        RewriteClass::HidIn => "HidIn"@,
        RewriteClass::HidOut => "HidOut"@,
        RewriteClass::VendorInterrupt => "VendorInterrupt"@,
        RewriteClass::VendorBulk => "VendorBulk"@,
        RewriteClass::Control => "Control"@,
        RewriteClass::Any => "Any"@,
    }
}

fn rewrite_class_str(c: RewriteClass) -> (r: &'static str)
    ensures
        r@ == rewrite_class_name(c),
{
    match c {
        RewriteClass::HidIn => "HidIn",
        RewriteClass::HidOut => "HidOut",
        RewriteClass::VendorInterrupt => "VendorInterrupt",
        RewriteClass::VendorBulk => "VendorBulk",
        RewriteClass::Control => "Control",
        RewriteClass::Any => "Any",
    }
}

/// A transform op's name.
pub open spec fn transform_op_name(op: TransformOp) -> Seq<char> {
    match op {
        TransformOp::Swap => "Swap"@,
        TransformOp::Remap => "Remap"@,
    }
}

/// An axis's name.
pub open spec fn axis_name(a: Axis) -> Seq<char> {
    match a {
        Axis::X => "X"@,
        Axis::Y => "Y"@,
        Axis::Wheel => "Wheel"@,
        Axis::Pan => "Pan"@,
    }
}

/// A usage class's name, as it leads a usage's.
pub open spec fn usage_class_name(c: Class) -> Seq<char> {
    match c {
        Class::Button => "Button "@,
        Class::Key => "Key "@,
        Class::Media => "Media "@,
    }
}

/// What a clip frame holds too many of, in words.
pub open spec fn clip_item_text(w: ClipItem) -> Seq<char> {
    match w {
        ClipItem::Edges => " edges"@,
        ClipItem::RawReports => " raw reports"@,
    }
}

/// A lock target's name: `Axis(X)`, or the usage's class and id.
pub open spec fn lock_target_name(t: LockTarget) -> Seq<char> {
    match t {
        LockTarget::Axis(a) => "Axis("@ + axis_name(a) + ")"@,
        LockTarget::Usage(u) => usage_class_name(u.class) + decimal(u.id as nat),
    }
}

fn push_lock_target(s: &mut String, t: LockTarget)
    ensures
        final(s)@ == old(s)@ + lock_target_name(t),
{
    match t {
        LockTarget::Axis(a) => {
            s.append("Axis(");
            let n: &str = match a {
                Axis::X => "X",
                Axis::Y => "Y",
                Axis::Wheel => "Wheel",
                Axis::Pan => "Pan",
            };
            s.append(n);
            s.append(")");
        },
        LockTarget::Usage(u) => {
            let n: &str = match u.class {
                Class::Button => "Button ",
                Class::Key => "Key ",
                Class::Media => "Media ",
            };
            s.append(n);
            push_decimal(s, u.id as u64);
        },
    }
    assert(s@ =~= old(s)@ + lock_target_name(t));
}

/// What a bearing-relative direction was refused on, in words.
pub open spec fn relative_to_text(w: RelativeTo) -> Seq<char> {
    match w {
        RelativeTo::CatchSubscription => "catch subscription"@,
        RelativeTo::RawEndpoint => "raw endpoint"@,
        RelativeTo::RewriteRule => "rewrite rule"@,
        RelativeTo::ButtonLock => "button lock"@,
        RelativeTo::KeyLock => "key lock"@,
        RelativeTo::MediaLock => "media lock"@,
    }
}

fn relative_to_str(w: RelativeTo) -> (r: &'static str)
    ensures
        r@ == relative_to_text(w),
{
    match w {
        RelativeTo::CatchSubscription => "catch subscription",
        RelativeTo::RawEndpoint => "raw endpoint",
        RelativeTo::RewriteRule => "rewrite rule",
        RelativeTo::ButtonLock => "button lock",
        RelativeTo::KeyLock => "key lock",
        RelativeTo::MediaLock => "media lock",
    }
}

/// What an update op was doing, in words.
pub open spec fn update_doing(op: u8) -> Seq<char> {
    if op == OTA_OP_BEGIN {
        "starting the update"@
    } else if op == OTA_OP_DATA {
        "writing an update chunk"@
    } else if op == OTA_OP_END {
        "finishing the update"@
    } else if op == OTA_OP_ABORT {
        "aborting the update"@
    } else if op == OTA_OP_ACTIVATE {
        "activating the staged image"@
    } else {
        "the update op"@
    }
}

/// Why an update op was refused, in words.
pub open spec fn update_reason(status: u8, arg: u32) -> Seq<char> {
    if status == UPD_BUSY {
        "the box is busy"@
    } else if status == UPD_ON_PROBATION {
        "the running image is still on probation"@
    } else if status == UPD_TOO_BIG {
        "the image is larger than the "@ + decimal(arg as nat) + "-byte slot"@
    } else if status == UPD_SEQ_GAP {
        "a chunk arrived out of sequence (expected "@ + decimal(arg as nat) + ")"@
    } else if status == UPD_BAD_DIGEST {
        "the image digest does not match"@
    } else if status == UPD_BAD_STATE {
        "no update is in progress"@
    } else {
        "status "@ + decimal(status as nat) + ", error "@ + decimal(arg as nat)
    }
}

/// The message of every error but an I/O one, whose text is the OS's.
pub open spec fn error_text(e: Error) -> Seq<char> {
    match e {
        Error::Io(_) => "io error: "@,
        Error::NotFound => "no medius device found"@,
        Error::NoReply => "no reply to version query during handshake"@,
        Error::BadProtoVer { got } => "unsupported protocol version "@ + decimal(got as nat)
            + " (expected "@ + decimal(PROTO_VER as nat) + ")"@,
        Error::QueryTimeout => "query timed out"@,
        Error::Disconnected => "device disconnected"@,
        Error::FrameTooLong => "frame payload too long (max "@ + decimal(MAX_PAYLOAD as nat)
            + " bytes)"@,
        Error::LockScaleRange { scale, min, max } => "lock scale "@ + signed_decimal(scale as int)
            + " is outside "@ + signed_decimal(min as int) + " to "@ + signed_decimal(max as int)
            + " (percent of the physical value kept: 0 blocks, 100 passes, above amplifies, negative reverses)"@,
        Error::LockScaleUsage { scale, class } => "lock scale "@ + signed_decimal(scale as int)
            + " reverses, but class "@ + decimal(class as nat)
            + " carries one bit with nothing to reverse; use 0 to block or 100 to pass"@,
        Error::CatchTableFull { needed, limit } => "subscription needs "@ + decimal(needed as nat)
            + " catch entries; the box holds "@ + decimal(limit as nat),
        Error::EmptySubscription => "a catch subscription needs at least one filter"@,
        Error::ImperfectRequired => "advanced control needs the imperfect-clone opt-in, which the box reports off; call allow_imperfect_clones(true) first"@,
        Error::RewriteMaskLength { match_len, mask_len } =>
            "rewrite match and mask differ in length (match "@ + decimal(match_len as nat)
            + ", mask "@ + decimal(mask_len as nat) + ")"@,
        Error::RewriteMatchTooLong { len, limit } => "rewrite match has "@ + decimal(len as nat)
            + " bytes; at most "@ + decimal(limit as nat) + " are compared"@,
        Error::RewriteTableFull { limit } => "all "@ + decimal(limit as nat)
            + " rewrite rules are in use; remove one first"@,
        Error::RewritePoolFull { len, free, limit } => "rewrite payload of "@ + decimal(len as nat)
            + " bytes exceeds the "@ + decimal(free as nat) + " bytes left in the "@ + decimal(
            limit as nat,
        ) + "-byte pool; remove a rule or shorten a payload first"@,
        Error::RewriteActionClass { action, class } => rewrite_action_name(action)
            + " is not valid on a "@ + rewrite_class_name(class) + " rewrite rule"@,
        Error::RewritePayloadTooLarge { action, class, len, offset, cap } => rewrite_action_name(
            action,
        ) + " rewrite payload of "@ + decimal(len as nat) + " bytes at offset "@ + decimal(
            offset as nat,
        ) + " exceeds the "@ + decimal(cap as nat) + "-byte head the box holds for a "@
            + rewrite_class_name(class) + " rule"@,
        Error::TransformOpFields { op, src, dst } => transform_op_name(op)
            + " transform cannot address "@ + lock_target_name(src) + " -> "@ + lock_target_name(
            dst,
        )
            + ": swap takes two axes; remap takes axis->axis, button->button, button->key or button->media; neither takes one field as both ends. To weigh a field, use scale"@,
        Error::TransformTableFull { limit } => decimal(limit as nat)
            + " transforms already held for this device; remove one first. The count is host-side and can include an entry the box refused for naming a field the clone does not declare; query_transforms reports what the box has"@,
        Error::CaptureNotApplicable { class } => catch_class_name(class)
            + " arrives decoded with no packet, so a capture on it does nothing"@,
        Error::NotAnInputFilter { class } => catch_class_name(class)
            + " is traffic and cannot be decoded to an input edge; use catch_events"@,
        Error::WildcardNotInput => "CatchFilter::everything() covers traffic as well as input; use CatchFilter::all_input()"@,
        Error::RelativeDirection { direction, what } => direction_name(direction)
            + " is measured against the bearing at emit time, which a "@ + relative_to_text(what)
            + " is addressed before; use Both, Positive or Negative"@,
        Error::RawDirection { direction } => "raw injection needs one endpoint flow, Direction::IN or Direction::OUT; "@
            + direction_name(direction) + " is neither"@,
        Error::ClipFrameCount { what, count, limit } => "clip frame has "@ + decimal(count as nat)
            + clip_item_text(what) + ", over the limit of "@ + decimal(limit as nat),
        Error::ClipFrameTooLong { len } => "clip frame encodes to "@ + decimal(len as nat)
            + " bytes, over the "@ + decimal(CLIP_ENTRY_MAX as nat)
            + " one append carries; split it across frames"@,
        Error::ClipTransferData { want, got } => "clip transfer needs "@ + decimal(want as nat)
            + " data bytes and has "@ + decimal(got as nat)
            + ": wLength for an OUT request, none for an IN one"@,
        Error::ClipPacketTrigger { reason } => "a clip packet trigger "@ + reason@,
        Error::ReservedId { class, id } => "id 0x"@ + hex_digits(id as nat, 4)
            + " is the wire's blanket sentinel; an exact "@ + catch_class_name(class)
            + " subscription to it would address the whole class"@,
        Error::HalfEdgeInputFilter => "input subscription must cover both edges: without the release a fresh press looks like a chord, and without the opposite sign an axis never returns to rest. Drop the direction and match on Input::Press or the delta's sign"@,
        Error::Update { op, status, arg } => update_doing(op) + " failed: "@ + update_reason(
            status.0,
            arg,
        ),
        Error::FlashTool(msg) => "esptool failed: "@ + msg@,
    }
}

fn push_update_doing(s: &mut String, op: u8)
    ensures
        final(s)@ == old(s)@ + update_doing(op),
{
    let t: &str = if op == OTA_OP_BEGIN {
        "starting the update"
    } else if op == OTA_OP_DATA {
        "writing an update chunk"
    } else if op == OTA_OP_END {
        "finishing the update"
    } else if op == OTA_OP_ABORT {
        "aborting the update"
    } else if op == OTA_OP_ACTIVATE {
        "activating the staged image"
    } else {
        "the update op"
    };
    s.append(t);
}

fn push_update_reason(s: &mut String, status: u8, arg: u32)
    ensures
        final(s)@ == old(s)@ + update_reason(status, arg),
{
    if status == UPD_BUSY {
        s.append("the box is busy");
    } else if status == UPD_ON_PROBATION {
        s.append("the running image is still on probation");
    } else if status == UPD_TOO_BIG {
        s.append("the image is larger than the ");
        push_decimal(s, arg as u64);
        s.append("-byte slot");
    } else if status == UPD_SEQ_GAP {
        s.append("a chunk arrived out of sequence (expected ");
        push_decimal(s, arg as u64);
        s.append(")");
    } else if status == UPD_BAD_DIGEST {
        s.append("the image digest does not match");
    } else if status == UPD_BAD_STATE {
        s.append("no update is in progress");
    } else {
        s.append("status ");
        push_decimal(s, status as u64);
        s.append(", error ");
        push_decimal(s, arg as u64);
    }
    assert(s@ =~= old(s)@ + update_reason(status, arg));
}

impl Error {
    /// The human-readable message. For an I/O error it is `io error: ` and the OS's text; for any
    /// other, exactly [`error_text`].
    pub fn message(&self) -> (m: String)
        ensures
            !(*self is Io) ==> m@ == error_text(*self),
            *self is Io ==> m@.len() >= error_text(*self).len() && m@.subrange(
                0,
                error_text(*self).len() as int,
            ) == error_text(*self),
    {
        let mut s = String::new();
        match self {
            Error::Io(e) => {
                s.append("io error: ");
                let t = io_error_text(e);
                s.append(t.as_str());
                assert(s@.subrange(0, error_text(*self).len() as int) =~= error_text(*self));
            },
            Error::NotFound => s.append("no medius device found"),
            Error::NoReply => s.append("no reply to version query during handshake"),
            Error::BadProtoVer { got } => {
                s.append("unsupported protocol version ");
                push_decimal(&mut s, *got as u64);
                s.append(" (expected ");
                push_decimal(&mut s, PROTO_VER as u64);
                s.append(")");
            },
            Error::QueryTimeout => s.append("query timed out"),
            Error::Disconnected => s.append("device disconnected"),
            Error::FrameTooLong => {
                s.append("frame payload too long (max ");
                push_decimal(&mut s, MAX_PAYLOAD as u64);
                s.append(" bytes)");
            },
            Error::LockScaleRange { scale, min, max } => {
                s.append("lock scale ");
                push_signed(&mut s, *scale as i64);
                s.append(" is outside ");
                push_signed(&mut s, *min as i64);
                s.append(" to ");
                push_signed(&mut s, *max as i64);
                s.append(
                    " (percent of the physical value kept: 0 blocks, 100 passes, above amplifies, negative reverses)",
                );
            },
            Error::LockScaleUsage { scale, class } => {
                s.append("lock scale ");
                push_signed(&mut s, *scale as i64);
                s.append(" reverses, but class ");
                push_decimal(&mut s, *class as u64);
                s.append(" carries one bit with nothing to reverse; use 0 to block or 100 to pass");
            },
            Error::CatchTableFull { needed, limit } => {
                s.append("subscription needs ");
                push_decimal(&mut s, *needed as u64);
                s.append(" catch entries; the box holds ");
                push_decimal(&mut s, *limit as u64);
            },
            Error::EmptySubscription => s.append("a catch subscription needs at least one filter"),
            Error::ImperfectRequired => s.append(
                "advanced control needs the imperfect-clone opt-in, which the box reports off; call allow_imperfect_clones(true) first",
            ),
            Error::RewriteMaskLength { match_len, mask_len } => {
                s.append("rewrite match and mask differ in length (match ");
                push_decimal(&mut s, *match_len as u64);
                s.append(", mask ");
                push_decimal(&mut s, *mask_len as u64);
                s.append(")");
            },
            Error::RewriteMatchTooLong { len, limit } => {
                s.append("rewrite match has ");
                push_decimal(&mut s, *len as u64);
                s.append(" bytes; at most ");
                push_decimal(&mut s, *limit as u64);
                s.append(" are compared");
            },
            Error::RewriteTableFull { limit } => {
                s.append("all ");
                push_decimal(&mut s, *limit as u64);
                s.append(" rewrite rules are in use; remove one first");
            },
            Error::RewritePoolFull { len, free, limit } => {
                s.append("rewrite payload of ");
                push_decimal(&mut s, *len as u64);
                s.append(" bytes exceeds the ");
                push_decimal(&mut s, *free as u64);
                s.append(" bytes left in the ");
                push_decimal(&mut s, *limit as u64);
                s.append("-byte pool; remove a rule or shorten a payload first");
            },
            Error::RewriteActionClass { action, class } => {
                s.append(rewrite_action_str(*action));
                s.append(" is not valid on a ");
                s.append(rewrite_class_str(*class));
                s.append(" rewrite rule");
            },
            Error::RewritePayloadTooLarge { action, class, len, offset, cap } => {
                s.append(rewrite_action_str(*action));
                s.append(" rewrite payload of ");
                push_decimal(&mut s, *len as u64);
                s.append(" bytes at offset ");
                push_decimal(&mut s, *offset as u64);
                s.append(" exceeds the ");
                push_decimal(&mut s, *cap as u64);
                s.append("-byte head the box holds for a ");
                s.append(rewrite_class_str(*class));
                s.append(" rule");
            },
            Error::TransformOpFields { op, src, dst } => {
                let n: &str = match op {
                    TransformOp::Swap => "Swap",
                    TransformOp::Remap => "Remap",
                };
                s.append(n);
                s.append(" transform cannot address ");
                push_lock_target(&mut s, *src);
                s.append(" -> ");
                push_lock_target(&mut s, *dst);
                s.append(
                    ": swap takes two axes; remap takes axis->axis, button->button, button->key or button->media; neither takes one field as both ends. To weigh a field, use scale",
                );
            },
            Error::TransformTableFull { limit } => {
                push_decimal(&mut s, *limit as u64);
                s.append(
                    " transforms already held for this device; remove one first. The count is host-side and can include an entry the box refused for naming a field the clone does not declare; query_transforms reports what the box has",
                );
            },
            Error::CaptureNotApplicable { class } => {
                s.append(catch_class_str(*class));
                s.append(" arrives decoded with no packet, so a capture on it does nothing");
            },
            Error::NotAnInputFilter { class } => {
                s.append(catch_class_str(*class));
                s.append(" is traffic and cannot be decoded to an input edge; use catch_events");
            },
            Error::WildcardNotInput => s.append(
                "CatchFilter::everything() covers traffic as well as input; use CatchFilter::all_input()",
            ),
            Error::RelativeDirection { direction, what } => {
                s.append(direction_str(*direction));
                s.append(" is measured against the bearing at emit time, which a ");
                s.append(relative_to_str(*what));
                s.append(" is addressed before; use Both, Positive or Negative");
            },
            Error::RawDirection { direction } => {
                s.append(
                    "raw injection needs one endpoint flow, Direction::IN or Direction::OUT; ",
                );
                s.append(direction_str(*direction));
                s.append(" is neither");
            },
            Error::ClipFrameCount { what, count, limit } => {
                s.append("clip frame has ");
                push_decimal(&mut s, *count as u64);
                let w: &str = match what {
                    ClipItem::Edges => " edges",
                    ClipItem::RawReports => " raw reports",
                };
                s.append(w);
                s.append(", over the limit of ");
                push_decimal(&mut s, *limit as u64);
            },
            Error::ClipFrameTooLong { len } => {
                s.append("clip frame encodes to ");
                push_decimal(&mut s, *len as u64);
                s.append(" bytes, over the ");
                push_decimal(&mut s, CLIP_ENTRY_MAX as u64);
                s.append(" one append carries; split it across frames");
            },
            Error::ClipTransferData { want, got } => {
                s.append("clip transfer needs ");
                push_decimal(&mut s, *want as u64);
                s.append(" data bytes and has ");
                push_decimal(&mut s, *got as u64);
                s.append(": wLength for an OUT request, none for an IN one");
            },
            Error::ClipPacketTrigger { reason } => {
                s.append("a clip packet trigger ");
                s.append(*reason);
            },
            Error::ReservedId { class, id } => {
                s.append("id 0x");
                push_hex(&mut s, *id as u64, 4);
                s.append(" is the wire's blanket sentinel; an exact ");
                s.append(catch_class_str(*class));
                s.append(" subscription to it would address the whole class");
            },
            Error::HalfEdgeInputFilter => s.append(
                "input subscription must cover both edges: without the release a fresh press looks like a chord, and without the opposite sign an axis never returns to rest. Drop the direction and match on Input::Press or the delta's sign",
            ),
            Error::Update { op, status, arg } => {
                push_update_doing(&mut s, *op);
                s.append(" failed: ");
                push_update_reason(&mut s, status.0, *arg);
            },
            Error::FlashTool(msg) => {
                s.append("esptool failed: ");
                s.append(msg.as_str());
            },
        }
        assert(!(*self is Io) ==> s@ =~= error_text(*self));
        s
    }
}

} // verus!
