//! Wire constants of the control protocol: class, direction and scale bytes, table limits and
//! update-session sizes.

use vstd::prelude::*;

verus! {

/// The control-protocol version this library speaks.
pub const PROTO_VER: u8 = 1;

/// The largest frame payload the link carries.
pub const MAX_PAYLOAD: usize = 512;

/// Lock / catch class of a relative axis.
pub const LOCK_CLS_AXIS: u8 = 0;
/// Lock / catch class of a mouse button.
pub const LOCK_CLS_BTN: u8 = 1;
/// Lock / catch class of a keyboard key.
pub const LOCK_CLS_KEY: u8 = 2;
/// Lock / catch class of a media (Consumer) usage.
pub const LOCK_CLS_MEDIA: u8 = 3;

/// Catch class numbers; the input classes share the lock class numbers.
pub const CATCH_CLS_AXIS: u8 = 0;
pub const CATCH_CLS_BTN: u8 = 1;
pub const CATCH_CLS_KEY: u8 = 2;
pub const CATCH_CLS_MEDIA: u8 = 3;
pub const CATCH_CLS_HID_IN: u8 = 4;
pub const CATCH_CLS_HID_OUT: u8 = 5;
pub const CATCH_CLS_VEND_INTR: u8 = 6;
pub const CATCH_CLS_VEND_BULK: u8 = 7;
pub const CATCH_CLS_CONTROL: u8 = 8;
pub const CATCH_CLS_EMIT: u8 = 9;
pub const CATCH_CLS_BUS: u8 = 10;
/// The every-class wildcard.
pub const CATCH_CLS_ANY: u8 = 0xFF;
/// The every-id sentinel.
pub const CATCH_ID_ANY: u16 = 0xFFFF;
/// How many entries the box's catch table holds.
pub const CATCH_MAX_ENTRIES: usize = 32;

/// Axis ids.
pub const LOCK_AXIS_X: u16 = 0;
pub const LOCK_AXIS_Y: u16 = 1;
pub const LOCK_AXIS_WHEEL: u16 = 2;
pub const LOCK_AXIS_PAN: u16 = 3;
/// The whole-class id of a lock blanket.
pub const LOCK_ID_ALL: u16 = 0xFFFF;

/// Direction bytes: both signs, the two fixed signs, and the two bearing-relative directions.
pub const LOCK_DIR_BOTH: u8 = 0;
pub const LOCK_DIR_POS: u8 = 1;
pub const LOCK_DIR_NEG: u8 = 2;
pub const LOCK_DIR_WITH: u8 = 3;
pub const LOCK_DIR_AGAINST: u8 = 4;

/// A lock scale of 0 blocks the physical value.
pub const LOCK_SCALE_BLOCK: i16 = 0;
/// A lock scale of 100 passes it untouched.
pub const LOCK_SCALE_PASS: i16 = 100;
/// The largest scale (2.55x).
pub const LOCK_SCALE_MAX: i16 = 255;
/// The most negative scale (a reversing 2.55x).
pub const LOCK_SCALE_MIN: i16 = -255;

/// The five named buttons.
pub const BTN_COUNT: u8 = 5;
/// The box's ceiling on declared buttons.
pub const MAX_BUTTONS: u8 = 16;

/// Rewrite table limits.
pub const REWRITE_MATCH_MAX: usize = 16;
pub const REWRITE_MAX_ENTRIES: usize = 16;
pub const REWRITE_PAYLOAD_POOL: usize = 2048;
/// The id of the whole-table rewrite clear.
pub const REWRITE_CLEAR_ID: u16 = 0xFFFF;

/// Transform table limit.
pub const TRANSFORM_MAX_ENTRIES: usize = 8;
/// Transform op bytes.
pub const TF_SWAP: u8 = 0;
pub const TF_REMAP: u8 = 1;
/// Transform ops the box knows; `2` was the retired scale op.
pub const TF_OP_COUNT: u8 = 2;

/// Firmware-update ops.
pub const OTA_OP_BEGIN: u8 = 1;
pub const OTA_OP_DATA: u8 = 2;
pub const OTA_OP_END: u8 = 3;
pub const OTA_OP_ABORT: u8 = 4;
pub const OTA_OP_ACTIVATE: u8 = 5;
/// Image bytes per update data frame.
pub const OTA_CHUNK: usize = 504;
/// Data frames in flight before an acknowledgement, when the box names none.
pub const OTA_CREDIT: usize = 16;
/// Length of an update reply: op, target, status, a 32-bit argument.
pub const UPD_RESP_LEN: usize = 7;

/// Clip engine verbs.
pub const CLIP_OP_START: u8 = 1;
pub const CLIP_OP_STOP: u8 = 2;
pub const CLIP_OP_PAUSE: u8 = 3;
pub const CLIP_OP_RESUME: u8 = 4;
pub const CLIP_OP_RESTART: u8 = 5;
pub const CLIP_OP_TOGGLE: u8 = 6;
pub const CLIP_OP_CLEAR: u8 = 7;
pub const CLIP_OP_FINALIZE: u8 = 8;

/// Clip setting ids: the auto-lock scope, loop, retain and ride.
pub const CLIP_SET_AUTOLOCK: u8 = 0;
pub const CLIP_SET_LOOP: u8 = 1;
pub const CLIP_SET_RETAIN: u8 = 2;
pub const CLIP_SET_RIDE: u8 = 3;
/// How many clip settings there are.
pub const CLIP_SET_COUNT: usize = 4;

/// Clip entry tags and flags.
pub const CLIP_TAG_GAP: u8 = 0x00;
pub const CLIP_F_XY: u8 = 0x01;
pub const CLIP_F_WHEEL: u8 = 0x02;
pub const CLIP_F_PAN: u8 = 0x04;
pub const CLIP_F_EDGES: u8 = 0x08;
pub const CLIP_F_RAW: u8 = 0x10;
pub const CLIP_F_XFER: u8 = 0x20;
/// The most edges one clip frame carries.
pub const CLIP_EDGES_MAX: usize = 16;
/// The most raw reports one clip frame carries.
pub const CLIP_RAW_MAX: usize = 4;
/// The most bytes one clip entry encodes to.
pub const CLIP_ENTRY_MAX: usize = 510;

/// Update reply status bytes.
pub const UPD_OK: u8 = 0x00;
pub const UPD_READY: u8 = 0x01;
pub const UPD_ACK: u8 = 0x02;
pub const UPD_STAGED: u8 = 0x03;
pub const UPD_BUSY: u8 = 0x10;
pub const UPD_ON_PROBATION: u8 = 0x11;
pub const UPD_TOO_BIG: u8 = 0x12;
pub const UPD_SEQ_GAP: u8 = 0x13;
pub const UPD_BAD_DIGEST: u8 = 0x15;
pub const UPD_BAD_STATE: u8 = 0x1A;

/// The RESET flag that also erases the persistent store.
pub const RST_F_NVS: u8 = 0x01;

/// The transfer status byte the box sends when it declines a transfer.
pub const XFER_REFUSED: u8 = 0xFC;


/// Clip trigger flags: the binding is present (clear for a removal), its firing edge or packet is
/// consumed, and it runs while a packet stream keeps meeting its condition.
pub const CLIP_TRIG_F_PRESENT: u8 = 0x01;
pub const CLIP_TRIG_F_CONSUME: u8 = 0x02;
pub const CLIP_TRIG_F_RUN: u8 = 0x04;
/// The longest packet-head match a packet trigger carries.
pub const PKT_MATCH_MAX: usize = 16;
/// How many packet triggers the box holds.
pub const CLIP_PKT_TRIG_MAX: usize = 8;
/// The match bytes every packet trigger shares.
pub const CLIP_PKT_MATCH_POOL: usize = 64;

} // verus!
