use medius::error::{Error, RelativeTo};
use medius::lockrules::{blanket_rows, check_lock, emit_pace_wire, lock_direction, ride_window_ms};
use medius::raw::{split_transfer_resp, validate_raw_direction, Setup};
use medius::rewrite::{validate_rule, RewriteAction, RewriteClass, RewriteRule};
use medius::transform::{validate_transform, Transform, TransformOp};
use medius::types::{Axis, Blanket, Class, Direction, EmitPace, LockTarget, Usage};

fn rule(class: RewriteClass, action: RewriteAction) -> RewriteRule {
    RewriteRule {
        class,
        id: 0x81,
        direction: Direction::Positive,
        action,
        offset: 0,
        match_bytes: vec![0x01],
        mask: vec![0xFF],
        payload: vec![],
    }
}

#[test]
fn a_well_formed_rule_passes() {
    assert!(validate_rule(&rule(RewriteClass::HidIn, RewriteAction::Drop)).is_ok());
    assert!(validate_rule(&rule(RewriteClass::Control, RewriteAction::Stall)).is_ok());
}

#[test]
fn rewrite_refusals_come_in_check_order() {
    let mut r = rule(RewriteClass::HidIn, RewriteAction::Patch);
    r.mask = vec![];
    assert!(matches!(validate_rule(&r), Err(Error::RewriteMaskLength { match_len: 1, mask_len: 0 })));

    let mut r = rule(RewriteClass::HidIn, RewriteAction::Patch);
    r.match_bytes = vec![0; 17];
    r.mask = vec![0; 17];
    assert!(matches!(validate_rule(&r), Err(Error::RewriteMatchTooLong { len: 17, limit: 16 })));

    let mut r = rule(RewriteClass::HidIn, RewriteAction::Patch);
    r.direction = Direction::Against;
    assert!(matches!(
        validate_rule(&r),
        Err(Error::RelativeDirection { direction: Direction::Against, what: RelativeTo::RewriteRule })
    ));

    let r = rule(RewriteClass::Control, RewriteAction::Drop);
    assert!(matches!(
        validate_rule(&r),
        Err(Error::RewriteActionClass { action: RewriteAction::Drop, class: RewriteClass::Control })
    ));
    let r = rule(RewriteClass::HidIn, RewriteAction::Answer);
    assert!(matches!(validate_rule(&r), Err(Error::RewriteActionClass { .. })));
}

#[test]
fn a_patch_past_the_report_head_is_too_large() {
    let mut r = rule(RewriteClass::HidIn, RewriteAction::Patch);
    r.offset = 60;
    r.payload = vec![0; 8];
    match validate_rule(&r) {
        Err(Error::RewritePayloadTooLarge { len, offset, cap, .. }) => assert_eq!((len, offset, cap), (8, 60, 64)),
        other => panic!("expected RewritePayloadTooLarge, got {other:?}"),
    }
    r.offset = 56;
    assert!(validate_rule(&r).is_ok());
}

#[test]
fn a_payload_past_the_read_back_reply_is_too_large() {
    let mut r = rule(RewriteClass::Control, RewriteAction::Answer);
    r.payload = vec![0; 500];
    match validate_rule(&r) {
        Err(Error::RewritePayloadTooLarge { len, cap, .. }) => assert_eq!((len, cap), (500, 512 - 11 - 2)),
        other => panic!("expected RewritePayloadTooLarge, got {other:?}"),
    }
    r.payload = vec![0; 499];
    assert!(validate_rule(&r).is_ok());
}

#[test]
fn transforms_pair_only_the_fields_the_box_takes() {
    assert!(validate_transform(&Transform::swap(Axis::X, Axis::Y)).is_ok());
    assert!(matches!(
        validate_transform(&Transform::swap(Axis::X, Axis::X)),
        Err(Error::TransformOpFields { op: TransformOp::Swap, .. })
    ));
    let btn = LockTarget::Usage(Usage { class: Class::Button, id: 0 });
    let key = LockTarget::Usage(Usage { class: Class::Key, id: 4 });
    assert!(validate_transform(&Transform::remap(btn, key)).is_ok());
    assert!(matches!(
        validate_transform(&Transform::remap(key, btn)),
        Err(Error::TransformOpFields { op: TransformOp::Remap, .. })
    ));
    assert!(validate_transform(&Transform::remap(LockTarget::Axis(Axis::Wheel), LockTarget::Axis(Axis::Pan))).is_ok());
}

#[test]
fn lock_directions_follow_the_class() {
    assert!(matches!(lock_direction(0, Direction::With), Ok(Direction::With)));
    assert!(matches!(lock_direction(3, Direction::Positive), Ok(Direction::Both)));
    assert!(matches!(lock_direction(1, Direction::Negative), Ok(Direction::Negative)));
    assert!(matches!(
        lock_direction(2, Direction::Against),
        Err(Error::RelativeDirection { what: RelativeTo::KeyLock, .. })
    ));
    assert!(matches!(
        lock_direction(1, Direction::With),
        Err(Error::RelativeDirection { what: RelativeTo::ButtonLock, .. })
    ));
}

#[test]
fn lock_scales_are_checked_before_anything_is_sent() {
    assert!(matches!(check_lock(0, Direction::Positive, 256), Err(Error::LockScaleRange { scale: 256, min: -255, max: 255 })));
    assert!(matches!(check_lock(1, Direction::Both, -50), Err(Error::LockScaleUsage { scale: -50, class: 1 })));
    assert!(matches!(check_lock(0, Direction::Negative, -50), Ok(2)));
    assert!(matches!(check_lock(3, Direction::Negative, 0), Ok(0)));
}

#[test]
fn blankets_name_their_rows() {
    assert_eq!(blanket_rows(Blanket::Aim), vec![(0, 0), (0, 1)]);
    assert_eq!(blanket_rows(Blanket::Wheel), vec![(0, 2)]);
    assert_eq!(blanket_rows(Blanket::Buttons), vec![(1, 0xFFFF)]);
    assert_eq!(blanket_rows(Blanket::Keys), vec![(2, 0xFFFF)]);
    assert_eq!(blanket_rows(Blanket::Media), vec![(3, 0xFFFF)]);
}

#[test]
fn windows_and_paces_on_the_wire() {
    assert_eq!(ride_window_ms(None), 0);
    assert_eq!(ride_window_ms(Some(0)), 1);
    assert_eq!(ride_window_ms(Some(40)), 40);
    assert_eq!(ride_window_ms(Some(1_000_000)), u16::MAX);
    assert_eq!(emit_pace_wire(EmitPace::Learned), (0, 0));
    assert_eq!(emit_pace_wire(EmitPace::Interval), (1, 0));
    assert_eq!(emit_pace_wire(EmitPace::Fixed(250)), (2, 250));
}

#[test]
fn raw_writes_need_one_flow() {
    assert!(validate_raw_direction(Direction::Positive).is_ok());
    assert!(validate_raw_direction(Direction::Negative).is_ok());
    assert!(matches!(validate_raw_direction(Direction::Both), Err(Error::RawDirection { direction: Direction::Both })));
    assert!(matches!(
        validate_raw_direction(Direction::With),
        Err(Error::RelativeDirection { what: RelativeTo::RawEndpoint, .. })
    ));
}

#[test]
fn setup_packets_and_transfer_replies() {
    let s = Setup::new(0x80, 6, 0x0100, 0, 18);
    assert!(s.is_in());
    let mut out = vec![0xAA];
    s.push_bytes(&mut out);
    assert_eq!(out, vec![0xAA, 0x80, 6, 0x00, 0x01, 0, 0, 18, 0]);
    assert!(!Setup::new(0x21, 9, 0, 0, 0).is_in());
    assert_eq!(split_transfer_resp(&[0x81, 0, 1, 2, 3]), (0, vec![1, 2, 3]));
    assert_eq!(split_transfer_resp(&[0x81, 7]), (7, vec![]));
    assert_eq!(split_transfer_resp(&[0x81]), (0xFC, vec![]));
}
