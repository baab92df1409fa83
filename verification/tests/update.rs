use medius::error::Error;
use medius::types::{UpdateProgress, UpdateStatus, UpdateTarget};
use medius::update::{
    begin_body, begin_outcome, check_image, confirm_step, drop_held, end_outcome, parse_reply, reply_for,
    take_held, ChunkPlan, ConfirmStep, StageAction, StagePhase, Staging,
};

#[test]
fn begin_body_is_length_then_sha256() {
    let body = begin_body(b"abc");
    let mut want = vec![3, 0, 0, 0];
    want.extend_from_slice(&[
        0xba, 0x78, 0x16, 0xbf, 0x8f, 0x01, 0xcf, 0xea, 0x41, 0x41, 0x40, 0xde, 0x5d, 0xae, 0x22, 0x23, 0xb0, 0x03,
        0x61, 0xa3, 0x96, 0x17, 0x7a, 0x9c, 0xb4, 0x10, 0xff, 0x61, 0xf2, 0x00, 0x15, 0xad,
    ]);
    assert_eq!(body, want);
    assert_eq!(begin_body(&[0u8; 300]).len(), 36);
    assert_eq!(&begin_body(&[0u8; 300])[..4], &[0x2C, 0x01, 0, 0]);
}

#[test]
fn chunks_respect_the_credit_window_and_carry_the_image_in_order() {
    let image: Vec<u8> = (0..1200u32).map(|i| (i % 251) as u8).collect();
    let mut plan = ChunkPlan::new(&image, UpdateTarget::Host, 2);
    let f0 = plan.next_frame().unwrap();
    assert_eq!(&f0[..4], &[2, 1, 0, 0]);
    assert_eq!(&f0[4..], &image[..504]);
    let f1 = plan.next_frame().unwrap();
    assert_eq!(&f1[..4], &[2, 1, 1, 0]);
    assert_eq!(&f1[4..], &image[504..1008]);
    assert!(plan.next_frame().is_none(), "window full");
    assert!(plan.awaiting_ack());
    assert_eq!(
        plan.on_ack(UpdateStatus(0x02), 2).unwrap(),
        UpdateProgress { target: UpdateTarget::Host, sent: 1008, total: 1200 }
    );
    let f2 = plan.next_frame().unwrap();
    assert_eq!(&f2[4..], &image[1008..]);
    assert!(plan.next_frame().is_none(), "image out");
    assert!(plan.awaiting_ack());
    assert!(!plan.done());
    assert!(plan.on_ack(UpdateStatus(0x00), 3).is_ok());
    assert!(plan.done());
}

#[test]
fn an_ack_for_another_chunk_or_a_refusal_is_an_error() {
    let image = vec![7u8; 10];
    let mut plan = ChunkPlan::new(&image, UpdateTarget::Device, 0);
    plan.next_frame().unwrap();
    assert!(matches!(
        plan.on_ack(UpdateStatus(0x02), 5),
        Err(Error::Update { op: 2, status: UpdateStatus(0x13), arg: 5 })
    ));
    assert!(matches!(
        plan.on_ack(UpdateStatus(0x15), 1),
        Err(Error::Update { op: 2, status: UpdateStatus(0x15), arg: 1 })
    ));
    assert!(plan.on_ack(UpdateStatus(0x02), 1).is_ok());
}

#[test]
fn an_empty_image_is_refused() {
    assert!(matches!(check_image(&[]), Err(Error::Update { op: 1, status: UpdateStatus(0x12), arg: 0 })));
    assert!(check_image(&[1]).is_ok());
}

#[test]
fn begin_and_end_replies_are_checked() {
    assert_eq!(begin_outcome(UpdateStatus(0x01), 16).unwrap(), 16);
    assert!(matches!(begin_outcome(UpdateStatus(0x10), 0), Err(Error::Update { op: 1, .. })));
    assert_eq!(end_outcome(UpdateStatus(0x03), 1).unwrap(), 1);
    assert!(matches!(end_outcome(UpdateStatus(0x15), 0), Err(Error::Update { op: 3, .. })));
}

#[test]
fn replies_parse_and_park() {
    let r = vec![3, 0, 0x03, 0x01, 0x02, 0x03, 0x04];
    assert!(reply_for(&r, 3));
    assert!(!reply_for(&r, 2));
    assert!(!reply_for(&vec![3, 0, 0], 3));
    assert_eq!(parse_reply(&r), (UpdateStatus(0x03), 0x04030201));

    let other = vec![2, 0, 0x02, 0, 0, 0, 0];
    let mut held = vec![other.clone(), r.clone(), vec![3, 1]];
    assert_eq!(take_held(&mut held, 3), Some(r.clone()));
    assert_eq!(held, vec![other.clone(), vec![3, 1]]);
    assert_eq!(take_held(&mut held, 5), None);
    drop_held(&mut held, 3);
    assert_eq!(held, vec![other]);
}

#[test]
fn waiting_for_confirmation() {
    assert!(matches!(confirm_step(Ok(false), 0, 10), ConfirmStep::Confirmed));
    assert!(matches!(confirm_step(Ok(true), 5, 10), ConfirmStep::Wait));
    assert!(matches!(
        confirm_step(Ok(true), 10, 10),
        ConfirmStep::Fail(Error::Update { op: 1, status: UpdateStatus(0x11), arg: 0 })
    ));
    assert!(matches!(confirm_step(Err(Error::QueryTimeout), 5, 10), ConfirmStep::Wait));
    assert!(matches!(confirm_step(Err(Error::QueryTimeout), 10, 10), ConfirmStep::Fail(Error::QueryTimeout)));
    assert!(matches!(confirm_step(Err(Error::Disconnected), 5, 10), ConfirmStep::Fail(Error::Disconnected)));
}

#[test]
fn staging_goes_begin_drop_held_data_then_end() {
    assert!(Staging::start(0).is_err());
    let mut s = Staging::start(10).unwrap();
    assert_eq!(s.step(false), StageAction::SendBegin);
    assert_eq!(s.step(false), StageAction::AwaitReply);
    assert_eq!(s.on_begin_reply(medius::types::UpdateStatus(0x01), 16).unwrap(), 16);
    assert_eq!(s.step(false), StageAction::DropHeldData);
    assert_eq!(s.step(false), StageAction::SendData);
    assert_eq!(s.step(true), StageAction::SendEnd);
    assert_eq!(s.on_end_reply(medius::types::UpdateStatus(0x03), 10).unwrap(), 10);
    assert_eq!(s.phase, StagePhase::Finished);
    let mut busy = Staging::start(10).unwrap();
    busy.step(false);
    assert!(busy.on_begin_reply(medius::types::UpdateStatus(0x10), 0).is_err());
    assert_eq!(busy.step(false), StageAction::Finished);
}
