use medius::reconcile::DesiredState;
use medius::rules::{StoredRewrite, StoredTransform};
use medius::types::{Action, Class, Usage};

fn usage(class: Class, id: u16) -> Usage {
    Usage { class, id }
}

fn rule(id: u16, action: u8, payload: Vec<u8>) -> StoredRewrite {
    StoredRewrite { class: 4, id, direction: 1, action, offset: 0, match_bytes: vec![1], mask: vec![0xFF], payload }
}

#[test]
fn overrides_replay_in_row_order_and_a_soft_release_drops_one() {
    let mut d = DesiredState::new();
    d.apply(usage(Class::Key, 4), Action::Press);
    d.apply(usage(Class::Button, 0), Action::ForceRelease);
    assert_eq!(
        d.held(),
        vec![(usage(Class::Button, 0), Action::ForceRelease), (usage(Class::Key, 4), Action::Press)]
    );
    d.apply(usage(Class::Key, 4), Action::SoftRelease);
    assert_eq!(d.held(), vec![(usage(Class::Button, 0), Action::ForceRelease)]);
}

#[test]
fn locks_replay_axes_first_then_media_in_the_order_taken() {
    let mut d = DesiredState::new();
    d.apply_lock((3, 5, 1), 0);
    d.apply_lock((0, 0, 1), 50);
    d.apply_lock((3, 2, 0), 40);
    assert_eq!(d.held_locks(), vec![((0, 0, 1), 50), ((3, 5, 1), 0), ((3, 2, 0), 0)]);
}

#[test]
fn a_momentary_lock_is_stored_as_block_or_pass() {
    let mut d = DesiredState::new();
    d.apply_lock((2, 4, 0), 150);
    assert!(d.held_locks().is_empty(), "a scale at or above pass is a pass on one bit");
    d.apply_lock((2, 4, 0), 99);
    assert_eq!(d.held_locks(), vec![((2, 4, 0), 0)]);
}

#[test]
fn a_failed_lock_is_rewound_exactly() {
    let mut d = DesiredState::new();
    d.apply_lock((0, 1, 2), -40);
    let before = d.held_locks();
    let undo = d.apply_lock((0, 1, 0), 100);
    assert!(d.held_locks().is_empty());
    d.restore_lock(undo);
    assert_eq!(d.held_locks(), before);
}

#[test]
fn a_button_blanket_expands_onto_the_declared_buttons() {
    let mut d = DesiredState::new();
    d.note_declared_buttons(3);
    assert_eq!(d.button_count(), 3);
    d.apply_lock((1, 0xFFFF, 0), 0);
    assert_eq!(d.held_locks(), vec![((1, 0, 0), 0), ((1, 1, 0), 0), ((1, 2, 0), 0)]);
    let undo = d.apply_lock((1, 1, 0), 100);
    assert_eq!(d.held_locks(), vec![((1, 0, 0), 0), ((1, 2, 0), 0)]);
    d.restore_lock(undo);
    assert_eq!(d.held_locks(), vec![((1, 0, 0), 0), ((1, 1, 0), 0), ((1, 2, 0), 0)]);
    d.note_declared_buttons(40);
    assert_eq!(d.button_count(), 16);
}

#[test]
fn the_five_named_buttons_count_until_caps_is_read() {
    let d = DesiredState::new();
    assert_eq!(d.button_count(), 5);
}

#[test]
fn rewrites_replace_by_key_and_restore_on_failure() {
    let mut d = DesiredState::new();
    d.apply_rewrite(rule(1, 3, vec![]));
    d.apply_rewrite(rule(2, 1, vec![9, 9]));
    assert_eq!(d.rewrite_count(), 2);
    let undo = d.apply_rewrite(rule(1, 1, vec![7]));
    assert_eq!(d.rewrite_count(), 2);
    assert_eq!(d.held_rewrites()[1].payload, vec![7], "a changed rule moves to the end");
    d.restore_rewrite(undo);
    assert_eq!(d.held_rewrites()[0].action, 3);

    let key = rule(2, 0, vec![]).key();
    assert!(d.holds_rewrite(&key));
    assert_eq!(d.rewrite_pool_used_except(&rule(1, 0, vec![]).key()), 2);
    let undo = d.remove_rewrite(key);
    assert_eq!(d.rewrite_count(), 1);
    d.restore_rewrite(undo);
    assert_eq!(d.rewrite_count(), 2);
    assert_eq!(d.held_rewrites()[1].payload, vec![9, 9]);
    d.clear_rewrites();
    assert_eq!(d.rewrite_count(), 0);
}

#[test]
fn transforms_overwrite_by_key_and_restore_on_failure() {
    let mut d = DesiredState::new();
    let t = StoredTransform { op: 1, sclass: 1, sid: 0, dclass: 2, did: 4 };
    d.apply_transform(t);
    assert!(d.holds_transform((1, 0, 2, 4)));
    let undo = d.apply_transform(StoredTransform { op: 0, ..t });
    assert_eq!(d.transform_count(), 1);
    assert_eq!(d.held_transforms()[0].op, 0);
    d.restore_transform(undo);
    assert_eq!(d.held_transforms(), vec![t]);
    let undo = d.remove_transform((1, 0, 2, 4));
    assert!(!d.holds_transform((1, 0, 2, 4)));
    d.restore_transform(undo);
    assert_eq!(d.held_transforms(), vec![t]);
    d.clear_transforms();
    assert_eq!(d.transform_count(), 0);
}

#[test]
fn clear_leaves_an_idle_state() {
    let mut d = DesiredState::new();
    assert!(d.is_idle());
    d.apply(usage(Class::Media, 0xE9), Action::Press);
    d.apply_lock((0, 0, 1), 0);
    d.apply_transform(StoredTransform { op: 0, sclass: 0, sid: 0, dclass: 0, did: 1 });
    assert!(!d.is_idle());
    d.clear();
    assert!(d.is_idle());
}

#[test]
fn a_failed_table_clear_puts_the_rules_and_transforms_back_in_order() {
    let mut d = DesiredState::new();
    d.apply_rewrite(rule(1, 3, vec![]));
    d.apply_rewrite(rule(2, 1, vec![9, 9]));
    let t1 = StoredTransform { op: 1, sclass: 1, sid: 0, dclass: 2, did: 4 };
    let t2 = StoredTransform { op: 0, sclass: 0, sid: 1, dclass: 0, did: 0 };
    d.apply_transform(t1);
    d.apply_transform(t2);

    let rules = d.held_rewrites();
    d.clear_rewrites();
    assert_eq!(d.rewrite_count(), 0);
    d.restore_rewrites(rules);
    let back = d.held_rewrites();
    assert_eq!(back.len(), 2);
    assert_eq!((back[0].id, back[0].action), (1, 3));
    assert_eq!((back[1].id, back[1].payload.clone()), (2, vec![9, 9]));

    let transforms = d.held_transforms();
    d.clear_transforms();
    d.restore_transforms(transforms);
    assert_eq!(d.held_transforms(), vec![t1, t2]);
}

#[test]
fn locks_stay_tidy_no_passing_row_and_no_blanket_beside_buttons() {
    let mut d = DesiredState::new();
    d.note_declared_buttons(3);
    d.apply_lock((1, 0, 1), 0);
    d.apply_lock((1, 0xFFFF, 0), 0);
    assert_eq!(d.held_locks(), vec![((1, 0, 0), 0), ((1, 1, 0), 0), ((1, 2, 0), 0)], "the blanket replaced the single button row");
    d.apply_lock((1, 1, 0), 100);
    assert_eq!(d.held_locks(), vec![((1, 0, 0), 0), ((1, 2, 0), 0)], "a single release expands the blanket first");
    d.apply_lock((2, 4, 0), 30);
    d.apply_lock((2, 4, 0), 100);
    assert_eq!(d.held_locks(), vec![((1, 0, 0), 0), ((1, 2, 0), 0)], "a row passing everywhere is dropped");
}
