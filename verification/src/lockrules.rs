//! The checks a lock, scale or blanket passes before it is sent, and the wire values of the
//! movement options.

use crate::error::{Error, RelativeTo};
use crate::opcode::{
    LOCK_AXIS_WHEEL, LOCK_AXIS_X, LOCK_AXIS_Y, LOCK_CLS_AXIS, LOCK_CLS_BTN, LOCK_CLS_KEY,
    LOCK_CLS_MEDIA, LOCK_DIR_BOTH, LOCK_ID_ALL, LOCK_SCALE_MAX, LOCK_SCALE_MIN,
};
use crate::types::{direction_byte, is_relative, Blanket, Direction, EmitPace};
use vstd::prelude::*;

verus! {

/// Max box-name length in bytes (printable ASCII).
pub const NAME_MAX: usize = 32;

/// Emit-rate ceiling in Hz (the 1 ms frame-clock limit); the box clamps a higher fixed rate to it.
pub const EMIT_MAX_HZ: u16 = 1000;

/// Bearing window at boot, in milliseconds, before any host sets one.
pub const BEARING_WINDOW_DEFAULT_MS: u64 = 20;

/// What a relative direction on a one-bit class is refused as.
pub open spec fn lock_what(class: u8) -> RelativeTo {
    if class == LOCK_CLS_BTN {
        RelativeTo::ButtonLock
    } else if class == LOCK_CLS_KEY {
        RelativeTo::KeyLock
    } else {
        RelativeTo::MediaLock
    }
}

/// The direction a lock on `class` is sent with: only an axis has a bearing to be with or
/// against, so a relative direction on any other class is refused (the box would drop it with no
/// reply); a media usage has no edges, so any direction on one is sent as `Both`.
pub open spec fn lock_direction_spec(class: u8, d: Direction) -> Result<Direction, Error> {
    if class == LOCK_CLS_AXIS {
        Ok(d)
    } else if is_relative(d) {
        Err(Error::RelativeDirection { direction: d, what: lock_what(class) })
    } else if class == LOCK_CLS_MEDIA {
        Ok(Direction::Both)
    } else {
        Ok(d)
    }
}

/// The direction a lock on `class` is sent with.
pub fn lock_direction(class: u8, direction: Direction) -> (r: Result<Direction, Error>)
    ensures
        r == lock_direction_spec(class, direction),
{
    if class == LOCK_CLS_AXIS {
        return Ok(direction);
    }
    if direction.is_relative() {
        let what = if class == LOCK_CLS_BTN {
            RelativeTo::ButtonLock
        } else if class == LOCK_CLS_KEY {
            RelativeTo::KeyLock
        } else {
            RelativeTo::MediaLock
        };
        return Err(Error::RelativeDirection { direction, what });
    }
    Ok(if class == LOCK_CLS_MEDIA { Direction::Both } else { direction })
}

/// The direction byte a lock of `scale` on `class` is sent with, or its refusal: a scale outside
/// the range, a reversing scale on a one-bit class, or a relative direction on a class with no
/// bearing.
pub open spec fn lock_check_spec(class: u8, d: Direction, scale: i16) -> Result<u8, Error> {
    if !(LOCK_SCALE_MIN <= scale <= LOCK_SCALE_MAX) {
        Err(Error::LockScaleRange { scale, min: LOCK_SCALE_MIN, max: LOCK_SCALE_MAX })
    } else if scale < 0 && class != LOCK_CLS_AXIS {
        Err(Error::LockScaleUsage { scale, class })
    } else {
        match lock_direction_spec(class, d) {
            Ok(dd) => Ok(direction_byte(dd)),
            Err(e) => Err(e),
        }
    }
}

/// Check a lock before it is recorded or sent.
pub fn check_lock(class: u8, direction: Direction, scale: i16) -> (r: Result<u8, Error>)
    ensures
        r == lock_check_spec(class, direction, scale),
{
    if !(LOCK_SCALE_MIN <= scale && scale <= LOCK_SCALE_MAX) {
        return Err(Error::LockScaleRange { scale, min: LOCK_SCALE_MIN, max: LOCK_SCALE_MAX });
    }
    // One bit has nothing to reverse.
    if scale < 0 && class != LOCK_CLS_AXIS {
        return Err(Error::LockScaleUsage { scale, class });
    }
    match lock_direction(class, direction) {
        Ok(d) => Ok(d.as_u8()),
        Err(e) => Err(e),
    }
}

/// The `(class, id)` rows a blanket locks: X and Y; the wheel; or the whole button, key or media
/// class.
pub open spec fn blanket_rows_spec(what: Blanket) -> Seq<(u8, u16)> {
    match what {
        Blanket::Aim => seq![(LOCK_CLS_AXIS, LOCK_AXIS_X), (LOCK_CLS_AXIS, LOCK_AXIS_Y)],
        Blanket::Wheel => seq![(LOCK_CLS_AXIS, LOCK_AXIS_WHEEL)],
        Blanket::Buttons => seq![(LOCK_CLS_BTN, LOCK_ID_ALL)],
        Blanket::Keys => seq![(LOCK_CLS_KEY, LOCK_ID_ALL)],
        Blanket::Media => seq![(LOCK_CLS_MEDIA, LOCK_ID_ALL)],
    }
}

/// The `(class, id)` rows a blanket locks, in the order they are sent.
pub fn blanket_rows(what: Blanket) -> (v: Vec<(u8, u16)>)
    ensures
        v@ == blanket_rows_spec(what),
{
    let mut v: Vec<(u8, u16)> = Vec::new();
    match what {
        Blanket::Aim => {
            v.push((LOCK_CLS_AXIS, LOCK_AXIS_X));
            v.push((LOCK_CLS_AXIS, LOCK_AXIS_Y));
        },
        Blanket::Wheel => v.push((LOCK_CLS_AXIS, LOCK_AXIS_WHEEL)),
        Blanket::Buttons => v.push((LOCK_CLS_BTN, LOCK_ID_ALL)),
        Blanket::Keys => v.push((LOCK_CLS_KEY, LOCK_ID_ALL)),
        Blanket::Media => v.push((LOCK_CLS_MEDIA, LOCK_ID_ALL)),
    }
    assert(v@ =~= blanket_rows_spec(what));
    v
}

/// A ride or bearing window on the wire: off is 0; a window is its whole milliseconds, at least 1
/// and saturating at the largest `u16`.
pub open spec fn ride_window_spec(window_ms: Option<u128>) -> u16 {
    match window_ms {
        None => 0,
        Some(ms) => if ms == 0 {
            1
        } else if ms > u16::MAX {
            u16::MAX
        } else {
            ms as u16
        },
    }
}

/// The wire value of a ride or bearing window given in whole milliseconds.
pub fn ride_window_ms(window_ms: Option<u128>) -> (w: u16)
    ensures
        w == ride_window_spec(window_ms),
{
    match window_ms {
        None => 0,
        Some(ms) => {
            let capped: u16 = if ms > u16::MAX as u128 { u16::MAX } else { ms as u16 };
            if capped < 1 { 1 } else { capped }
        },
    }
}

/// The `(mode, Hz)` an emit pace is sent as.
pub open spec fn emit_pace_spec(pace: EmitPace) -> (u8, u16) {
    match pace {
        EmitPace::Learned => (0, 0),
        EmitPace::Interval => (1, 0),
        EmitPace::Fixed(hz) => (2, hz),
    }
}

/// The `(mode, Hz)` an emit pace is sent as.
pub fn emit_pace_wire(pace: EmitPace) -> (r: (u8, u16))
    ensures
        r == emit_pace_spec(pace),
{
    match pace {
        EmitPace::Learned => (0, 0),
        EmitPace::Interval => (1, 0),
        EmitPace::Fixed(hz) => (2, hz),
    }
}

/// Only an axis takes a reversing scale: a negative scale within the range on any other class is
/// refused as a scale the class cannot use, naming that scale and class, whatever the direction;
/// on an axis the same scale passes the scale checks and is sent in the direction asked for.
pub proof fn lemma_negative_scale_axis_only(class: u8, d: Direction, scale: i16)
    requires
        LOCK_SCALE_MIN <= scale < 0,
    ensures
        class != LOCK_CLS_AXIS ==> lock_check_spec(class, d, scale) == Err::<u8, Error>(
            Error::LockScaleUsage { scale, class },
        ),
        lock_check_spec(LOCK_CLS_AXIS, d, scale) == Ok::<u8, Error>(direction_byte(d)),
{
}

/// The other lock checks: a scale outside `-255..=255` is refused as out of range whatever the
/// class; within range and not reversing, a relative direction is taken only on an axis, a media
/// lock is sent as `Both` whatever sign it names, and a button or key lock keeps its sign.
pub proof fn lemma_lock_check_rules(class: u8, d: Direction, scale: i16)
    ensures
        !(LOCK_SCALE_MIN <= scale <= LOCK_SCALE_MAX) ==> lock_check_spec(class, d, scale) == Err::<u8, Error>(
            Error::LockScaleRange { scale, min: LOCK_SCALE_MIN, max: LOCK_SCALE_MAX },
        ),
        0 <= scale <= LOCK_SCALE_MAX && class != LOCK_CLS_AXIS && is_relative(d) ==> lock_check_spec(class, d, scale)
            is Err,
        0 <= scale <= LOCK_SCALE_MAX && class == LOCK_CLS_MEDIA && !is_relative(d) ==> lock_check_spec(class, d, scale)
            == Ok::<u8, Error>(LOCK_DIR_BOTH),
        0 <= scale <= LOCK_SCALE_MAX && (class == LOCK_CLS_BTN || class == LOCK_CLS_KEY) && !is_relative(d)
            ==> lock_check_spec(class, d, scale) == Ok::<u8, Error>(direction_byte(d)),
        0 <= scale <= LOCK_SCALE_MAX ==> lock_check_spec(LOCK_CLS_AXIS, d, scale) == Ok::<u8, Error>(direction_byte(d)),
{
}

} // verus!
