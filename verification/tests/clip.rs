use medius::clip::{
    blanket_scope, check_frame, encode_chunks, encode_frame, ring_holds, trigger_key, ClipAction, ClipBuilder,
    ClipFrame, ClipRaw, ClipState, ClipStatus, ClipTransfer, ClipTrigger, Edge,
};
use medius::error::{ClipItem, Error};
use medius::raw::Setup;
use medius::types::{Action, Blanket, Class, Direction, Usage};

fn encoded(f: &ClipFrame) -> Vec<u8> {
    let mut out = Vec::new();
    encode_frame(f, &mut out).unwrap();
    out
}

#[test]
fn frames_encode_flags_then_fields() {
    let mut f = ClipFrame::new();
    assert_eq!(encoded(&f), vec![0x01, 0, 0, 0, 0], "an empty frame still carries XY");
    f.dx = 5;
    f.dy = -1;
    assert_eq!(encoded(&f), vec![0x01, 5, 0, 0xFF, 0xFF]);
    f.wheel = 2;
    f.pan = -2;
    assert_eq!(encoded(&f), vec![0x07, 5, 0, 0xFF, 0xFF, 2, 0, 0xFE, 0xFF]);

    let mut g = ClipFrame::new();
    g.edges.push((Usage { class: Class::Button, id: 0 }, Action::Press));
    g.edges.push((Usage { class: Class::Key, id: 0x104 }, Action::SoftRelease));
    assert_eq!(encoded(&g), vec![0x08, 2, 1, 0, 0, 1, 2, 4, 1, 0]);

    let mut h = ClipFrame::new();
    h.raw.push(ClipRaw { ep: 0x81, direction: Direction::Positive, bytes: vec![9, 8] });
    h.transfers.push(ClipTransfer { ep: 0, setup: Setup::new(0x21, 9, 0x0200, 0, 1), out: vec![0x55] });
    assert_eq!(
        encoded(&h),
        vec![0x30, 1, 1, 1, 2, 0, 9, 8, 1, 0, 0x21, 9, 0, 2, 0, 0, 1, 0, 0x55]
    );
}

#[test]
fn frame_refusals() {
    let mut f = ClipFrame::new();
    for i in 0..17u16 {
        f.edges.push((Usage { class: Class::Key, id: i }, Action::Press));
    }
    assert!(matches!(check_frame(&f), Err(Error::ClipFrameCount { what: ClipItem::Edges, count: 17, limit: 16 })));

    let mut f = ClipFrame::new();
    for _ in 0..5 {
        f.raw.push(ClipRaw { ep: 1, direction: Direction::Negative, bytes: vec![] });
    }
    assert!(matches!(check_frame(&f), Err(Error::ClipFrameCount { what: ClipItem::RawReports, count: 5, limit: 4 })));

    let mut f = ClipFrame::new();
    f.raw.push(ClipRaw { ep: 1, direction: Direction::Both, bytes: vec![] });
    assert!(matches!(check_frame(&f), Err(Error::RawDirection { .. })));

    let mut f = ClipFrame::new();
    f.transfers.push(ClipTransfer { ep: 0, setup: Setup::new(0x21, 9, 0, 0, 2), out: vec![1] });
    assert!(matches!(check_frame(&f), Err(Error::ClipTransferData { want: 2, got: 1 })));

    let mut f = ClipFrame::new();
    f.raw.push(ClipRaw { ep: 1, direction: Direction::Positive, bytes: vec![0; 600] });
    assert!(matches!(check_frame(&f), Err(Error::ClipFrameTooLong { len: 606 })));
    let mut out = vec![7];
    assert!(encode_frame(&f, &mut out).is_err());
    assert_eq!(out, vec![7], "a refused frame writes nothing");
}

#[test]
fn chunks_end_on_entry_boundaries_and_carry_the_whole_stream() {
    let mut b = ClipBuilder::new();
    b.move_by(1, 0);
    b.gap(3);
    b.press(Usage { class: Class::Button, id: 1 });
    b.release(Usage { class: Class::Button, id: 1 });
    let chunks = encode_chunks(&b, 8).unwrap();
    assert_eq!(
        chunks,
        vec![vec![0x01, 1, 0, 0, 0, 0x00, 3, 0], vec![0x08, 1, 1, 1, 0, 1], vec![0x08, 1, 1, 1, 0, 0]]
    );
    let whole: Vec<u8> = encode_chunks(&b, 1000).unwrap().concat();
    assert_eq!(whole, chunks.concat());
    assert_eq!(encode_chunks(&b, 1000).unwrap().len(), 1);
    let tiny = encode_chunks(&b, 1).unwrap();
    assert_eq!(tiny.len(), 4, "an entry longer than the limit goes alone");
    assert!(encode_chunks(&ClipBuilder::new(), 8).unwrap().is_empty());
}

#[test]
fn a_bad_entry_refuses_the_whole_clip() {
    let mut b = ClipBuilder::new();
    b.move_by(1, 1);
    let mut bad = ClipFrame::new();
    bad.raw.push(ClipRaw { ep: 1, direction: Direction::With, bytes: vec![] });
    b.frame(bad);
    assert!(matches!(encode_chunks(&b, 100), Err(Error::RelativeDirection { .. })));
}

#[test]
fn triggers_key_on_usage_and_edge() {
    let t = ClipTrigger::new(Usage { class: Class::Button, id: 3 }, Edge::Release, ClipAction::Toggle);
    assert!(!t.consume);
    assert_eq!(trigger_key(&t), 0x01_0003_02);
    assert_eq!(ClipAction::Toggle.as_u8(), 6);
}

#[test]
fn the_ring_holds_a_clip_while_loaded_or_running() {
    assert!(!ring_holds(&ClipStatus { state: ClipState::Idle, total: 0, free: 100 }));
    assert!(ring_holds(&ClipStatus { state: ClipState::Idle, total: 4, free: 96 }));
    assert!(ring_holds(&ClipStatus { state: ClipState::Faulted, total: 0, free: 100 }));
}

#[test]
fn autolock_scope_is_a_bit_per_blanket() {
    assert_eq!(blanket_scope(&[]), 0);
    assert_eq!(blanket_scope(&[Blanket::Aim, Blanket::Keys]), 0x09);
    assert_eq!(blanket_scope(&[Blanket::Media, Blanket::Media, Blanket::Wheel]), 0x12);
}
