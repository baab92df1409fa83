use medius::lockrow::Slots;
use medius::mock::{MockCaps, MockLockTable, MockPacketTriggers, MockRewrites, MockSession};
use medius::rules::StoredTransform;

fn pass() -> Slots {
    Slots::default()
}

#[test]
fn a_button_blanket_covers_only_the_declared_buttons() {
    let mut t = MockLockTable::new();
    t.apply(1, 0xFFFF, 0, 40, 3);
    for b in 0..3 {
        assert_eq!(t.slots(4 + b), Slots { pos: 0, neg: 0, with: 100, against: 100 });
    }
    assert_eq!(t.slots(7), pass());
    t.apply(1, 5, 1, 0, 3);
    assert_eq!(t.slots(9), pass(), "a button past the declared count is dropped");
}

#[test]
fn a_button_ignores_a_relative_direction_and_a_negative_scale() {
    let mut t = MockLockTable::new();
    t.apply(1, 0, 3, 0, 5);
    assert_eq!(t.slots(4), pass());
    t.apply(1, 0, 1, -50, 5);
    assert_eq!(t.slots(4), pass());
    t.apply(0, 0, 3, 40, 5);
    assert_eq!(t.slots(0), Slots { pos: 100, neg: 100, with: 40, against: 100 });
    t.apply(0, 0xFFFF, 0, -30, 5);
    for a in 0..4 {
        assert_eq!(t.slots(a), Slots { pos: -30, neg: -30, with: 100, against: 100 });
    }
}

#[test]
fn key_and_media_locks_keep_edge_bits_and_a_short_list() {
    let mut t = MockLockTable::new();
    t.apply(2, 0xFFFF, 1, 0, 0);
    assert!(t.key_blanket() == (true, false));
    t.apply(2, 0x0104, 0, 0, 0);
    assert!(t.key_edges(4) == (true, true), "the usage is the id's low byte");
    t.apply(2, 2, 0, 0, 0);
    assert!(!t.key_edges(2).0, "the box keeps no bits below usage 4");
    for id in 1..=9u16 {
        t.apply(3, id, 0, 0, 0);
    }
    assert_eq!(t.media(), &vec![1, 2, 3, 4, 5, 6, 7, 8], "the ninth finds no free slot");
    t.apply(3, 3, 0, 100, 0);
    t.apply(3, 9, 0, 0, 0);
    assert_eq!(t.media(), &vec![1, 2, 9, 4, 5, 6, 7, 8]);
}

#[test]
fn a_lock_frame_needs_a_clone_and_a_whole_payload() {
    let mut t = MockLockTable::new();
    t.apply_frame(&vec![0, 1, 0, 1, 50, 0], false, 5);
    assert_eq!(t.slots(1), pass());
    t.apply_frame(&vec![0, 1, 0, 1, 50], true, 5);
    assert_eq!(t.slots(1), pass());
    t.apply_frame(&vec![0, 1, 0, 1, 0xCE, 0xFF], true, 5);
    assert_eq!(t.slots(1), Slots { pos: -50, neg: 100, with: 100, against: 100 });
}

#[test]
fn packet_triggers_add_overwrite_remove_and_refuse() {
    let mut p = MockPacketTriggers::new();
    let m = vec![0x01];
    let k = vec![0xFF];
    assert_eq!(p.set(4, 1, 1, 6, 0x01, 0, &m, &k, false), Some(0));
    assert_eq!(p.set(4, 2, 1, 6, 0x01, 0, &m, &k, false), Some(1));
    assert_eq!(p.set(4, 1, 1, 6, 0x01, 0, &m, &k, false), Some(0), "an identical re-set keeps its place");
    assert_eq!(p.set(4, 1, 1, 1, 0x01, 0, &m, &k, false), Some(0));
    assert_eq!(p.rows()[0].action, 1);
    assert_eq!(p.set(4, 1, 2, 6, 0x01, 0, &m, &k, false), None, "a HID IN stream carries no negative direction");
    assert_eq!(p.set(4, 1, 1, 6, 0x01, 0, &vec![0x03], &vec![0x01], false), None, "a match bit outside the mask");
    assert_eq!(p.set(4, 1, 1, 6, 0x03, 0, &m, &k, false), None, "consuming needs the opt-in");
    assert_eq!(p.set(4, 1, 1, 6, 0x03, 0, &m, &k, true), Some(0));
    assert_eq!(p.set(4, 1, 1, 6, 0x05, 1, &m, &k, false), None, "a run with no condition bytes");
    assert_eq!(p.set(4, 1, 1, 6, 0x01, 1, &m, &k, false), None, "a selector without a run");
    assert_eq!(p.set(4, 1, 1, 6, 0x00, 0, &m, &k, false), Some(0));
    assert_eq!(p.rows().len(), 1);
    assert_eq!(p.set(4, 1, 1, 6, 0x00, 0, &m, &k, false), None, "removing a key not held");
    for id in 10..17u16 {
        assert!(p.set(4, id, 1, 6, 0x01, 0, &m, &k, false).is_some());
    }
    assert_eq!(p.set(4, 40, 1, 6, 0x01, 0, &m, &k, false), None, "the table is full");
}

fn rewrite_frame(class: u8, id: u16, dir: u8, state: u8, action: u8, offset: u16, m: &[u8], k: &[u8], payload: &[u8]) -> Vec<u8> {
    let mut p = vec![class, id as u8, (id >> 8) as u8, dir, state, action, offset as u8, (offset >> 8) as u8, m.len() as u8];
    p.extend_from_slice(m);
    p.extend_from_slice(k);
    p.extend_from_slice(payload);
    p
}

#[test]
fn rewrite_frames_set_overwrite_remove_and_clear() {
    let mut t = MockRewrites::new();
    t.apply_frame(&rewrite_frame(4, 1, 1, 1, 1, 0, &[1], &[0xFF], &[9]), false);
    assert!(t.rows().is_empty(), "dropped with the opt-in off");
    t.apply_frame(&rewrite_frame(4, 1, 1, 1, 1, 0, &[1], &[0xFF], &[9]), true);
    t.apply_frame(&rewrite_frame(4, 2, 1, 1, 3, 0, &[], &[], &[]), true);
    assert_eq!((t.rows().len(), t.generation()), (2, 2));
    t.apply_frame(&rewrite_frame(4, 1, 1, 1, 1, 0, &[1], &[0xFF], &[9]), true);
    assert_eq!(t.generation(), 2, "an identical re-set changes nothing");
    t.apply_frame(&rewrite_frame(4, 1, 1, 1, 1, 0, &[1], &[0xFF], &[7, 7]), true);
    assert_eq!((t.rows()[1].id, t.rows()[1].payload.clone(), t.generation()), (1, vec![7, 7], 3), "an overwrite moves to the end");
    t.apply_frame(&rewrite_frame(8, 0, 0, 1, 3, 0, &[], &[], &[]), true);
    assert_eq!(t.rows().len(), 2, "control traffic cannot be dropped");
    t.apply_frame(&rewrite_frame(4, 1, 3, 1, 0, 0, &[], &[], &[]), true);
    assert_eq!(t.rows().len(), 2, "a relative direction is refused");
    t.apply_frame(&rewrite_frame(4, 2, 1, 0, 0, 0, &[], &[], &[]), true);
    assert_eq!((t.rows().len(), t.generation()), (1, 4));
    t.apply_frame(&rewrite_frame(4, 3, 1, 1, 2, 0, &[], &[], &vec![0; 65]), true);
    assert_eq!(t.rows().len(), 1, "a replacement past the report head is refused");
    t.apply_frame(&rewrite_frame(0xFF, 0xFFFF, 0, 0, 0, 0, &[], &[], &[]), false);
    assert_eq!((t.rows().len(), t.generation(), t.full()), (0, 5, false), "the clear passes with the opt-in off");
}

#[test]
fn a_full_rewrite_table_marks_full() {
    let mut t = MockRewrites::new();
    for id in 0..16u16 {
        t.apply_frame(&rewrite_frame(4, id, 1, 1, 0, 0, &[], &[], &[]), true);
    }
    assert!(!t.full());
    t.apply_frame(&rewrite_frame(4, 99, 1, 1, 0, 0, &[], &[], &[]), true);
    assert_eq!((t.rows().len(), t.full()), (16, true));
}

fn mouse_and_keyboard() -> MockCaps {
    MockCaps {
        clone_up: true,
        has_x: true,
        has_y: true,
        has_wheel: true,
        has_pan: false,
        n_buttons: 5,
        has_keys: true,
        has_consumer: true,
    }
}

#[test]
fn transform_frames_set_overwrite_in_place_remove_and_refuse() {
    let mut s = MockSession::new(mouse_and_keyboard());
    s.apply_transform_frame(&vec![0, 0, 0, 0, 0, 1, 0, 1]);
    assert_eq!(s.transforms().rows(), &vec![StoredTransform { op: 0, sclass: 0, sid: 0, dclass: 0, did: 1 }]);
    s.apply_transform_frame(&vec![1, 0, 0, 0, 0, 1, 0, 1]);
    assert_eq!(s.transforms().rows()[0].op, 1, "a set on a held key changes only the op");
    s.apply_transform_frame(&vec![1, 0, 3, 0, 0, 1, 0, 1]);
    assert_eq!(s.transforms().rows().len(), 1, "no pan axis on this clone");
    s.apply_transform_frame(&vec![2, 1, 0, 0, 1, 1, 0, 1]);
    assert_eq!(s.transforms().rows().len(), 1, "the retired scale op");
    s.apply_transform_frame(&vec![0, 1, 0, 0, 1, 1, 0, 1]);
    assert_eq!(s.transforms().rows().len(), 1, "a swap is between axes");
    s.apply_transform_frame(&vec![1, 1, 0, 0, 2, 4, 0, 1]);
    assert_eq!(s.transforms().rows().len(), 2, "a button remapped onto a key");
    s.apply_transform_frame(&vec![0, 0, 0, 0, 0, 1, 0, 0]);
    assert_eq!(s.transforms().rows().len(), 1);
    s.apply_transform_frame(&vec![0, 0xFF, 0xFF, 0xFF, 0xFF, 0xFF, 0xFF, 0]);
    assert!(s.transforms().rows().is_empty());
}

#[test]
fn clip_trigger_frames_set_packet_triggers_and_the_clear_all() {
    let mut s = MockSession::new(mouse_and_keyboard());
    let frame = vec![4, 1, 0, 1, 6, 0x01, 0, 1, 0x01, 0xFF];
    assert!(!s.apply_clip_trigger_frame(&frame));
    assert_eq!(s.packets().len(), 1);
    assert!(!s.apply_clip_trigger_frame(&vec![4, 2, 0, 1, 6, 0x01, 0, 2, 0x01]), "a match cut short");
    assert_eq!(s.packets().len(), 1);
    assert!(s.apply_clip_trigger_frame(&vec![0xFF, 0xFF, 0xFF, 0, 0, 0]));
    assert_eq!(s.packets().len(), 0);
}

#[test]
fn the_opt_in_off_drops_rewrites_and_consuming_triggers_and_counts_a_release() {
    let mut s = MockSession::new(mouse_and_keyboard());
    s.apply_imperfect_option(1);
    assert!(s.imperfect() && s.represent_pending());
    s.apply_rewrite_frame(&vec![4, 1, 0, 1, 1, 0, 0, 0, 0]);
    s.apply_clip_trigger_frame(&vec![4, 1, 0, 1, 6, 0x03, 0, 1, 0x01, 0xFF]);
    s.apply_clip_trigger_frame(&vec![4, 2, 0, 1, 6, 0x01, 0, 1, 0x01, 0xFF]);
    assert_eq!((s.rewrites().rows().len(), s.packets().len()), (1, 2));
    s.apply_imperfect_option(0);
    assert_eq!((s.rewrites().rows().len(), s.packets().len(), s.session()), (0, 1, 1));
    assert_eq!(s.packets().rows()[0].id, 2);
    s.apply_imperfect_option(0);
    assert_eq!(s.session(), 1, "no change, no release");
}

#[test]
fn a_teardown_releases_the_session_and_counts_it_once() {
    let mut s = MockSession::new(mouse_and_keyboard());
    s.apply_lock_frame(&vec![0, 0, 0, 1, 0, 0]);
    assert_eq!(s.locks().slots(0).pos, 0);
    s.note_command();
    s.tear_down();
    assert_eq!(s.locks().slots(0), Slots::default());
    assert_eq!(s.session(), 1);
    s.tear_down();
    assert_eq!(s.session(), 1);
    s.apply_lock_frame(&vec![0, 0, 0, 1, 0, 0]);
    assert_eq!(s.locks().slots(0), Slots::default(), "no clone, no lock");
}

#[test]
fn a_restart_releases_the_session_and_zeroes_the_counter() {
    let mut s = MockSession::new(mouse_and_keyboard());
    s.apply_imperfect_option(1);
    s.apply_rewrite_frame(&vec![4, 1, 0, 1, 1, 0, 0, 0, 0]);
    s.note_command();
    s.tear_down();
    assert_eq!(s.session(), 1);
    s.restart();
    assert_eq!((s.session(), s.rewrites().rows().len(), s.represent_pending()), (0, 0, false));
    assert!(s.imperfect(), "the opt-in is stored, not session state");
}
