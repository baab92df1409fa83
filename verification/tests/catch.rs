use medius::catch::{
    collapse, covers, effective, plan_subscribe, prepare, sync_commands, Capture, CatchClass, CatchCommand,
    CatchFilter,
};
use medius::error::{Error, RelativeTo};
use medius::route::{route, wanted, CatchEvent};
use medius::types::{Axis, Class, Direction};

fn entries(set: &medius::catch::FilterSet) -> Vec<CatchFilter> {
    (0..set.len()).map(|i| set.row(i).1).collect()
}

#[test]
fn duplicate_entries_collapse_to_the_widest_capture() {
    let a = CatchFilter::traffic(CatchClass::HidIn, 1).with_capture(Capture::First(8));
    let b = CatchFilter::traffic(CatchClass::HidIn, 1);
    let set = collapse(&vec![a, b]);
    assert_eq!(entries(&set), vec![b]);
    let set = collapse(&vec![a, a.with_capture(Capture::First(4))]);
    assert_eq!(entries(&set), vec![a]);
}

#[test]
fn filter_keys_pack_class_id_and_direction() {
    let f = CatchFilter::traffic(CatchClass::HidIn, 0x0102).with_direction(Direction::Negative);
    assert_eq!(f.key(), 0x04_0102_02);
    assert_eq!(CatchFilter::everything().wire(), (0xFF, 0xFFFF));
}

#[test]
fn matching_honours_wildcards_and_direction() {
    let f = CatchFilter::class_only(CatchClass::Button).with_direction(Direction::Positive);
    assert!(f.matches(CatchClass::Button, 3, Direction::Positive));
    assert!(f.matches(CatchClass::Button, 3, Direction::Both));
    assert!(!f.matches(CatchClass::Button, 3, Direction::Negative));
    assert!(!f.matches(CatchClass::Key, 3, Direction::Positive));
    assert!(CatchFilter::everything().matches(CatchClass::Bus, 9, Direction::Negative));
}

#[test]
fn prepare_refuses_each_bad_subscription() {
    assert!(matches!(prepare(&vec![]), Err(Error::EmptySubscription)));
    let rel = CatchFilter::class_only(CatchClass::Axis).with_direction(Direction::With);
    assert!(matches!(
        prepare(&vec![rel]),
        Err(Error::RelativeDirection { direction: Direction::With, what: RelativeTo::CatchSubscription })
    ));
    let cap = CatchFilter::class_only(CatchClass::Key).with_capture(Capture::First(4));
    assert!(matches!(prepare(&vec![cap]), Err(Error::CaptureNotApplicable { class: CatchClass::Key })));
    let reserved = CatchFilter::traffic(CatchClass::HidIn, 0xFFFF);
    assert!(matches!(
        prepare(&vec![reserved]),
        Err(Error::ReservedId { class: CatchClass::HidIn, id: 0xFFFF })
    ));
    let ok = prepare(&vec![CatchFilter::traffic(CatchClass::HidIn, 1)]).unwrap();
    assert_eq!(ok.len(), 1);
}

#[test]
fn a_later_exact_subscription_to_the_blanket_id_is_refused() {
    let later = vec![CatchFilter::traffic(CatchClass::HidIn, 5), CatchFilter::traffic(CatchClass::HidOut, 0xFFFF)];
    assert!(matches!(prepare(&later), Err(Error::ReservedId { class: CatchClass::HidOut, id: 0xFFFF })));
}

#[test]
fn a_broader_filter_covers_a_narrower_one() {
    let broad = CatchFilter::class_only(CatchClass::HidIn);
    let narrow = CatchFilter::traffic(CatchClass::HidIn, 2).with_direction(Direction::Positive);
    assert!(covers(broad, narrow));
    assert!(!covers(narrow, broad));
    assert!(covers(CatchFilter::everything(), narrow));
}

#[test]
fn effective_widens_captures_and_merges_opposite_signs() {
    let pos = CatchFilter::traffic(CatchClass::HidIn, 1)
        .with_direction(Direction::Positive)
        .with_capture(Capture::First(8));
    let neg = CatchFilter::traffic(CatchClass::HidIn, 1)
        .with_direction(Direction::Negative)
        .with_capture(Capture::First(16));
    let set = effective(&vec![pos, neg]);
    assert_eq!(
        entries(&set),
        vec![CatchFilter::traffic(CatchClass::HidIn, 1).with_capture(Capture::First(16))]
    );

    let whole = CatchFilter::class_only(CatchClass::HidIn);
    let set = effective(&vec![pos, whole]);
    let e = entries(&set);
    assert_eq!(e.len(), 2);
    assert!(e.iter().all(|f| f.capture == Capture::Whole));
}

#[test]
fn sync_sends_only_the_changes() {
    let a = CatchFilter::traffic(CatchClass::HidIn, 1);
    let b = CatchFilter::traffic(CatchClass::HidIn, 2);
    let prev = collapse(&vec![a]);
    let next = collapse(&vec![a, b]);
    let cmds = sync_commands(&prev, &next);
    assert_eq!(cmds, vec![CatchCommand { class: 4, id: 2, direction: 0, on: true, capture: 0 }]);
    let back = sync_commands(&next, &prev);
    assert_eq!(back, vec![CatchCommand { class: 4, id: 2, direction: 0, on: false, capture: 0 }]);
    assert!(sync_commands(&next, &next).is_empty());
}

#[test]
fn removing_the_wildcard_clears_the_whole_table_once() {
    let all = CatchFilter::everything();
    let a = CatchFilter::traffic(CatchClass::HidIn, 1);
    let prev = collapse(&vec![all, a]);
    let next = collapse(&vec![a]);
    let cmds = sync_commands(&prev, &next);
    assert_eq!(
        cmds,
        vec![
            CatchCommand { class: 0xFF, id: 0xFFFF, direction: 0, on: false, capture: 0 },
            CatchCommand { class: 4, id: 1, direction: 0, on: true, capture: 0 },
        ]
    );
}

#[test]
fn a_subscription_past_the_table_is_refused() {
    let many: Vec<CatchFilter> = (0..33u16).map(|i| CatchFilter::traffic(CatchClass::HidIn, i)).collect();
    match plan_subscribe(&vec![], &many) {
        Err(Error::CatchTableFull { needed, limit }) => assert_eq!((needed, limit), (33, 32)),
        other => panic!("expected CatchTableFull, got {other:?}"),
    }
    let fits: Vec<CatchFilter> = (0..32u16).map(|i| CatchFilter::traffic(CatchClass::HidIn, i)).collect();
    let plan = plan_subscribe(&vec![], &fits).unwrap();
    assert_eq!(plan.effective.len(), 32);
    assert_eq!(plan.commands.len(), 32);
}

#[test]
fn joining_an_existing_subscription_sends_only_what_it_adds() {
    let a = CatchFilter::traffic(CatchClass::HidIn, 1);
    let b = CatchFilter::traffic(CatchClass::HidOut, 1);
    let plan = plan_subscribe(&vec![a], &vec![a, b]).unwrap();
    assert_eq!(plan.effective.len(), 2);
    assert_eq!(plan.commands, vec![CatchCommand { class: 5, id: 1, direction: 0, on: true, capture: 0 }]);
}

#[test]
fn events_route_to_the_subscriptions_that_asked() {
    let axis_x_pos = collapse(&vec![CatchFilter::traffic(CatchClass::Axis, 0).with_direction(Direction::Positive)]);
    let buttons = collapse(&vec![CatchFilter::class_only(CatchClass::Button).with_direction(Direction::Positive)]);
    let endpoint = collapse(&vec![CatchFilter::traffic(CatchClass::HidIn, 0x81)]);
    let subs = vec![axis_x_pos, buttons, endpoint];

    let right = CatchEvent::Motion(vec![(Axis::X, 5)]);
    assert_eq!(route(&subs, &right), vec![0]);
    let left = CatchEvent::Motion(vec![(Axis::X, -5)]);
    assert!(route(&subs, &left).is_empty());
    let still = CatchEvent::Motion(vec![]);
    assert_eq!(route(&subs, &still), vec![0]);
    let press = CatchEvent::Usages { class: Class::Button, direction: Direction::Positive };
    assert_eq!(route(&subs, &press), vec![1]);
    let release = CatchEvent::Usages { class: Class::Button, direction: Direction::Negative };
    assert!(route(&subs, &release).is_empty());
    let packet = CatchEvent::Traffic { class: CatchClass::HidIn, id: 0x81, direction: Direction::Positive };
    assert_eq!(route(&subs, &packet), vec![2]);
    assert!(wanted(&subs[2], &packet));
    assert!(!wanted(&subs[1], &packet));
}

#[test]
fn a_failed_subscription_is_detached_and_the_box_narrowed_back() {
    let mut reg = medius::catch_registry::CatchRegistry::new();
    let (first, plan) = reg.subscribe(vec![CatchFilter::traffic(CatchClass::HidIn, 1)]).unwrap();
    assert_eq!((first, plan.effective.len()), (0, 1));
    let (second, widened) = reg.subscribe(vec![CatchFilter::traffic(CatchClass::HidOut, 2)]).unwrap();
    assert_eq!((second, widened.effective.len()), (1, 2));
    let (restored, narrow) = reg.roll_back(second, &widened.effective);
    assert_eq!(entries(&restored), vec![CatchFilter::traffic(CatchClass::HidIn, 1)]);
    assert_eq!(narrow.len(), 1, "one clear for the entry the failed subscription added");
    assert!(!narrow[0].on);
    assert_eq!(reg.filters(), vec![CatchFilter::traffic(CatchClass::HidIn, 1)]);
}
