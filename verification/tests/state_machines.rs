use medius::catch::{CatchClass, CatchFilter};
use medius::error::Error;
use medius::input::{check_input_filters, decode_snapshot, subscribed, ClockDomain, Input, InputDecoder, InputEvent};
use medius::keepalive::{Keepalive, KeepaliveStep, KEEPALIVE_STOP_POLL_NS};
use medius::lockrow::{make_row_key, split_row_key, Override, Slots};
use medius::restart::{Cause, HelloVerdict, Outcome, Pending, Watch, CLONE_POLL_NS, CLONE_POLL_SLOW_NS};
use medius::types::{Action, Class, Direction, Usage};

fn btn(id: u16) -> Usage {
    Usage { class: Class::Button, id }
}

#[test]
fn input_filters_must_be_whole_input_classes() {
    assert!(check_input_filters(&vec![CatchFilter::class_only(CatchClass::Button)]).is_ok());
    assert!(matches!(check_input_filters(&vec![CatchFilter::everything()]), Err(Error::WildcardNotInput)));
    assert!(matches!(
        check_input_filters(&vec![CatchFilter::class_only(CatchClass::HidIn)]),
        Err(Error::NotAnInputFilter { class: CatchClass::HidIn })
    ));
    assert!(matches!(
        check_input_filters(&vec![CatchFilter::class_only(CatchClass::Key).with_direction(Direction::Positive)]),
        Err(Error::HalfEdgeInputFilter)
    ));
    assert!(InputDecoder::new(vec![CatchFilter::everything()]).is_err());
}

#[test]
fn snapshots_become_releases_then_presses() {
    let filters = vec![CatchFilter::class_only(CatchClass::Button)];
    let (events, now) = decode_snapshot(&filters, &vec![btn(0), btn(1)], Class::Button, &vec![btn(1), btn(2), btn(2)]);
    assert_eq!(events, vec![Input::Release(btn(0)), Input::Press(btn(2))]);
    assert_eq!(now, vec![btn(1), btn(2)]);
}

#[test]
fn only_subscribed_usages_of_the_snapshot_class_count() {
    let filters = vec![CatchFilter::traffic(CatchClass::Key, 4)];
    assert!(subscribed(&filters, Class::Key, Usage { class: Class::Key, id: 4 }));
    assert!(!subscribed(&filters, Class::Key, Usage { class: Class::Key, id: 5 }));
    assert!(!subscribed(&filters, Class::Button, Usage { class: Class::Key, id: 4 }));
    let mut d = InputDecoder::new(filters).unwrap();
    let keys = vec![Usage { class: Class::Key, id: 5 }, Usage { class: Class::Key, id: 4 }];
    assert_eq!(d.on_usages(Class::Key, &keys), vec![Input::Press(Usage { class: Class::Key, id: 4 })]);
    assert_eq!(d.held(Class::Key), &vec![Usage { class: Class::Key, id: 4 }]);
    assert!(d.held(Class::Button).is_empty());
    assert_eq!(d.on_usages(Class::Key, &vec![]), vec![Input::Release(Usage { class: Class::Key, id: 4 })]);
}

#[test]
fn motion_reports_only_when_something_moved() {
    let d = InputDecoder::new(vec![CatchFilter::class_only(CatchClass::Axis)]).unwrap();
    assert_eq!(d.on_motion(0, 0, 0, 0), None);
    assert_eq!(d.on_motion(1, 0, 0, -2), Some(Input::Motion { dx: 1, dy: 0, dz: 0, pan: -2 }));
}

#[test]
fn lock_rows_rebuild_from_the_fewest_commands() {
    let mut s = Slots::default();
    assert!(s.is_clear());
    assert!(s.commands().is_empty());
    s.write(0, 40);
    assert_eq!(s.commands(), vec![(0, 40)]);
    s.write(3, -10);
    assert_eq!(s.commands(), vec![(0, 40), (3, -10)], "agreeing signs take one Both, then the bearing slot");
    s.write(0, 100);
    assert!(s.is_clear(), "a Both write clears the bearing slots too");
    s.write(9, 0);
    assert!(s.is_clear(), "an unknown direction changes nothing");
}

#[test]
fn row_keys_order_by_class_then_id() {
    assert_eq!(make_row_key(1, 0xFFFF), 0x1FFFF);
    assert!(make_row_key(1, 0xFFFF) < make_row_key(2, 0));
    assert_eq!(split_row_key(make_row_key(3, 0xE9)), (3, 0xE9));
}

#[test]
fn overrides_follow_actions() {
    assert_eq!(Override::applied(Action::Press).as_action(), Some(Action::Press));
    assert_eq!(Override::applied(Action::ForceRelease).as_action(), Some(Action::ForceRelease));
    assert_eq!(Override::applied(Action::SoftRelease), Override::Idle);
    assert_eq!(Override::default().as_action(), None);
}

#[test]
fn a_hello_owes_a_recovery_only_after_a_reply() {
    let mut w = Watch::new();
    assert_eq!(w.note_hello(1, false), HelloVerdict::Accept);
    assert!(!w.owed, "the first hello of a fresh link is the one the open saw");
    w.note_reply();
    assert_eq!(w.note_hello(1, false), HelloVerdict::Accept);
    assert!(w.owed && w.recovering);
    assert_eq!(w.hellos, 1);
    assert_eq!(w.note_hello(1, false), HelloVerdict::Accept);
    assert!(w.booted, "the second hello of one boot lands during the recovery");
    assert_eq!(w.note_hello(4, false), HelloVerdict::Refuse(4));
    assert!(w.take_owed());
    assert!(!w.take_owed());
    let (outcome, counted) = w.settle(Cause::Released, 2, 7);
    assert_eq!(outcome, Outcome::Done);
    assert!(counted);
    assert!(!w.recovering);
    assert!(w.session_is(7));
    assert!(w.session_moved(8));
    assert!(!w.session_moved(8));
}

#[test]
fn a_recovery_polls_fast_then_slow() {
    let mut p = Pending::new(Cause::Restart, 1_000);
    p.wait(2_000);
    assert_eq!(p.next, 2_000 + CLONE_POLL_NS);
    p.wait(6_000_000_000);
    assert_eq!(p.next, 6_000_000_000 + CLONE_POLL_SLOW_NS);
    p.wait(u64::MAX - 1);
    assert_eq!(p.next, u64::MAX);
}

#[test]
fn the_represent_watch_expires() {
    let mut w = Watch::new();
    assert!(!w.expecting_represent(0));
    w.expect_represent(100);
    assert!(w.expecting_represent(100));
    assert!(!w.expecting_represent(100 + 5_000_000_000));
}

#[test]
fn the_keepalive_sleeps_ticks_and_reasserts() {
    let cadence = 500_000_000;
    let mut k = Keepalive::new(0, cadence);
    assert_eq!(k.next(0, false, false, false, false), KeepaliveStep::Sleep(KEEPALIVE_STOP_POLL_NS));
    assert_eq!(k.next(490_000_000, false, false, false, false), KeepaliveStep::Sleep(10_000_000));
    assert_eq!(k.next(0, false, false, true, false), KeepaliveStep::CheckRelease { on_tick: false });
    assert_eq!(k.next(cadence, false, true, false, false), KeepaliveStep::Idle);
    assert_eq!(k.tick_at, 2 * cadence);
    assert_eq!(k.next(2 * cadence, false, false, false, false), KeepaliveStep::CheckRelease { on_tick: true });
    assert_eq!(k.after_release_check(false, true, 2 * cadence, 2 * cadence, true), KeepaliveStep::Reassert { read_ring: true });
    assert_eq!(k.after_release_check(true, false, 2 * cadence, 2 * cadence + 1, false), KeepaliveStep::Again);
    assert_eq!(k.next(2 * cadence + 1, false, false, false, false), KeepaliveStep::Recover(Cause::Released));
    k.after_recovery(Outcome::Wait, 2 * cadence + 2);
    assert_eq!(k.pending.unwrap().next, 2 * cadence + 2 + CLONE_POLL_NS);
    k.after_recovery(Outcome::Done, 2 * cadence + 3);
    assert!(k.pending.is_none());
}

#[test]
fn an_owed_restart_recovers_before_anything_else() {
    let mut k = Keepalive::new(0, 500);
    assert_eq!(k.next(10, true, true, false, false), KeepaliveStep::Recover(Cause::Restart));
    k.after_recovery(Outcome::Again, 20);
    assert_eq!(k.pending, Some(Pending { cause: Cause::Restart, since: 20, next: 20 }));
}

#[test]
fn every_edge_of_a_report_carries_its_stamp() {
    let mut d = InputDecoder::new(vec![CatchFilter::class_only(CatchClass::Button)]).unwrap();
    d.on_usages(Class::Button, &vec![btn(0)]);
    let events = d.on_usages_at(Class::Button, &vec![btn(1)], 1234, ClockDomain::DeviceChip);
    assert_eq!(
        events,
        vec![
            InputEvent { ts_us: 1234, clock: ClockDomain::DeviceChip, input: Input::Release(btn(0)) },
            InputEvent { ts_us: 1234, clock: ClockDomain::DeviceChip, input: Input::Press(btn(1)) },
        ]
    );
    assert_eq!(
        d.on_motion_at(0, 3, 0, 0, 9, ClockDomain::HostChip),
        Some(InputEvent { ts_us: 9, clock: ClockDomain::HostChip, input: Input::Motion { dx: 0, dy: 3, dz: 0, pan: 0 } })
    );
    assert_eq!(d.on_motion_at(0, 0, 0, 0, 9, ClockDomain::HostChip), None);
}

#[test]
fn an_idle_keepalive_only_sleeps() {
    let cadence = 500_000_000;
    let mut k = Keepalive::new(0, cadence);
    for step in 0..40u64 {
        let now = step * 100_000_000;
        let s = k.next(now, false, true, step % 2 == 0, true);
        assert!(matches!(s, KeepaliveStep::Sleep(_) | KeepaliveStep::Idle), "step {step}: {s:?}");
        assert!(k.pending.is_none());
    }
}

#[test]
fn a_waiting_recovery_polls_fast_then_slow_and_an_early_check_sleeps_from_its_look() {
    let cadence = 500_000_000;
    let mut k = Keepalive::new(0, cadence);
    assert_eq!(k.next(0, true, false, false, false), KeepaliveStep::Recover(Cause::Restart));
    k.after_recovery(Outcome::Wait, 1_000);
    assert_eq!(k.pending, Some(Pending { cause: Cause::Restart, since: 0, next: 1_000 + CLONE_POLL_NS }));
    k.after_recovery(Outcome::Wait, 6_000_000_000);
    assert_eq!(k.pending.unwrap().next, 6_000_000_000 + CLONE_POLL_SLOW_NS);
    k.after_recovery(Outcome::Done, 6_000_000_001);
    assert_eq!(
        k.after_release_check(false, false, 495_000_000, 499_000_000, false),
        KeepaliveStep::Sleep(5_000_000),
        "the sleep runs from the look, not the answer"
    );
}
