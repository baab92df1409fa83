use medius::catch::{effective, CatchClass, CatchCommand, CatchFilter};
use medius::clip::{ClipAction, ClipTrigger, Edge};
use medius::reconcile::DesiredState;
use medius::replay::{replay, Replay};
use medius::rules::{StoredRewrite, StoredTransform};
use medius::types::{Action, Class, Usage};

fn held_state() -> DesiredState {
    let mut d = DesiredState::new();
    d.apply(Usage { class: Class::Key, id: 4 }, Action::Press);
    d.apply_lock((0, 0, 1), 0);
    d.set_catch(effective(&vec![CatchFilter::traffic(CatchClass::HidIn, 1)]));
    d.apply_rewrite(StoredRewrite {
        class: 4,
        id: 1,
        direction: 1,
        action: 3,
        offset: 0,
        match_bytes: vec![1],
        mask: vec![0xFF],
        payload: vec![],
    });
    d.apply_transform(StoredTransform { op: 1, sclass: 1, sid: 0, dclass: 2, did: 4 });
    d.clip_setting(1, 1);
    d.clip_bind(ClipTrigger::new(Usage { class: Class::Button, id: 3 }, Edge::Press, ClipAction::Toggle));
    d
}

#[test]
fn a_reconnect_replays_overrides_locks_catch_rewrites_and_transforms_in_order() {
    let d = held_state();
    let v = replay(&d, false);
    assert_eq!(v.len(), 5);
    assert!(matches!(v[0], Replay::Inject(Usage { class: Class::Key, id: 4 }, Action::Press)));
    assert!(matches!(v[1], Replay::Lock((0, 0, 1), 0)));
    let f = CatchFilter::traffic(CatchClass::HidIn, 1);
    let (class, id) = f.wire();
    match &v[2] {
        Replay::Catch(c) => {
            assert_eq!(*c, CatchCommand { class, id, direction: c.direction, on: true, capture: 0 });
            assert_eq!((c.class, c.id), (class, id));
        }
        other => panic!("expected a catch frame, got {:?}", other),
    }
    match &v[3] {
        Replay::Rewrite(r) => assert_eq!((r.id, r.action), (1, 3)),
        other => panic!("expected a rewrite frame, got {:?}", other),
    }
    assert!(matches!(v[4], Replay::Transform(StoredTransform { op: 1, sclass: 1, sid: 0, dclass: 2, did: 4 })));
}

#[test]
fn a_recovery_also_replays_the_clip_settings_and_triggers() {
    let d = held_state();
    let v = replay(&d, true);
    assert_eq!(v.len(), 7);
    assert!(matches!(v[5], Replay::ClipSet(1, 1)));
    match &v[6] {
        Replay::ClipTrigger(t) => {
            assert_eq!(t.on, Usage { class: Class::Button, id: 3 });
            assert_eq!(t.action, ClipAction::Toggle);
        }
        other => panic!("expected a clip trigger frame, got {:?}", other),
    }
}

#[test]
fn an_idle_state_replays_nothing() {
    let d = DesiredState::new();
    assert!(replay(&d, false).is_empty());
    assert!(replay(&d, true).is_empty());
}
