use medius::error::Error;
use medius::reconcile::DesiredState;
use medius::rewrite::{RewriteAction, RewriteClass, RewriteRule};
use medius::room::{check_rewrite_room, check_transform_room, removal_key, to_stored, transform_to_stored};
use medius::transform::Transform;
use medius::types::{Axis, Class, Direction, LockTarget, Usage};

fn rule(id: u16, payload: usize) -> RewriteRule {
    RewriteRule {
        class: RewriteClass::HidIn,
        id,
        direction: Direction::Positive,
        action: RewriteAction::Replace,
        offset: 0,
        match_bytes: vec![],
        mask: vec![],
        payload: vec![0; payload],
    }
}

#[test]
fn rules_are_held_in_wire_fields() {
    let s = to_stored(&rule(0x81, 3));
    assert_eq!((s.class, s.id, s.direction, s.action, s.offset), (4, 0x81, 1, 2, 0));
    assert_eq!(s.payload, vec![0, 0, 0]);
    let t = transform_to_stored(&Transform::remap(
        LockTarget::Usage(Usage { class: Class::Button, id: 3 }),
        LockTarget::Usage(Usage { class: Class::Media, id: 0xE9 }),
    ));
    assert_eq!((t.op, t.sclass, t.sid, t.dclass, t.did), (1, 1, 3, 3, 0xE9));
}

#[test]
fn the_rule_table_holds_sixteen_keys() {
    let mut d = DesiredState::new();
    for id in 0..16 {
        assert!(check_rewrite_room(&d, &rule(id, 1)).is_ok());
        d.apply_rewrite(to_stored(&rule(id, 1)));
    }
    assert!(matches!(check_rewrite_room(&d, &rule(99, 1)), Err(Error::RewriteTableFull { limit: 16 })));
    assert!(check_rewrite_room(&d, &rule(5, 1)).is_ok(), "an overwrite needs no new entry");
}

#[test]
fn payloads_share_the_pool_less_what_an_overwrite_frees() {
    let mut d = DesiredState::new();
    match check_rewrite_room(&d, &rule(1, 2049)) {
        Err(Error::RewritePoolFull { len, free, limit }) => assert_eq!((len, free, limit), (2049, 2048, 2048)),
        other => panic!("expected RewritePoolFull, got {other:?}"),
    }
    d.apply_rewrite(to_stored(&rule(1, 2000)));
    match check_rewrite_room(&d, &rule(2, 49)) {
        Err(Error::RewritePoolFull { free, .. }) => assert_eq!(free, 48),
        other => panic!("expected RewritePoolFull, got {other:?}"),
    }
    assert!(check_rewrite_room(&d, &rule(2, 48)).is_ok());
    assert!(check_rewrite_room(&d, &rule(1, 2048)).is_ok(), "overwriting frees the rule's own bytes");
}

#[test]
fn the_transform_table_holds_eight_keys() {
    let mut d = DesiredState::new();
    let axes = [Axis::X, Axis::Y, Axis::Wheel, Axis::Pan];
    let mut n = 0;
    'fill: for a in axes {
        for b in axes {
            if a == b {
                continue;
            }
            if n == 8 {
                break 'fill;
            }
            let t = Transform::remap(LockTarget::Axis(a), LockTarget::Axis(b));
            assert!(check_transform_room(&d, &t).is_ok());
            d.apply_transform(transform_to_stored(&t));
            n += 1;
        }
    }
    let extra = Transform::remap(LockTarget::Axis(Axis::Pan), LockTarget::Axis(Axis::X));
    assert!(matches!(check_transform_room(&d, &extra), Err(Error::TransformTableFull { limit: 8 })));
    let again = Transform::swap(Axis::X, Axis::Y);
    assert!(check_transform_room(&d, &again).is_ok(), "an overwrite keeps its entry");
}

#[test]
fn a_removal_names_the_rule_key() {
    let mut r = rule(7, 0);
    r.match_bytes = vec![1, 2];
    r.mask = vec![0xFF];
    assert!(matches!(removal_key(&r), Err(Error::RewriteMaskLength { match_len: 2, mask_len: 1 })));
    r.mask = vec![0xFF, 0x0F];
    let k = removal_key(&r).unwrap();
    assert_eq!((k.class, k.id, k.direction, k.match_bytes, k.mask), (4, 7, 1, vec![1, 2], vec![0xFF, 0x0F]));
}

#[test]
fn advanced_setters_need_the_opt_in() {
    assert!(medius::room::require_imperfect(true).is_ok());
    assert!(matches!(medius::room::require_imperfect(false), Err(Error::ImperfectRequired)));
}
