use medius::mock_update::{MockUpdate, MOCK_SLOT_SIZE};
use sha2::{Digest, Sha256};

fn begin_body(image: &[u8], digest: &[u8]) -> Vec<u8> {
    let mut b = (image.len() as u32).to_le_bytes().to_vec();
    b.extend_from_slice(digest);
    b
}

fn chunk(seq: u16, bytes: &[u8]) -> Vec<u8> {
    let mut b = seq.to_le_bytes().to_vec();
    b.extend_from_slice(bytes);
    b
}

#[test]
fn a_complete_image_with_its_digest_is_staged() {
    let image: Vec<u8> = (0..1000u32).map(|i| (i % 251) as u8).collect();
    let digest = Sha256::digest(&image);
    let mut u = MockUpdate::new();
    assert_eq!(u.begin(&begin_body(&image, &digest)), (0x01, 16));
    assert_eq!(u.begin(&begin_body(&image, &digest)), (0x10, 0), "busy while a session runs");
    assert_eq!(u.data(&chunk(0, &image[..504])), None, "written unacknowledged inside the window");
    assert_eq!(u.data(&chunk(0, &image[..504])), Some((0x02, 1)), "the previous chunk again is re-acknowledged");
    assert_eq!(u.data(&chunk(1, &image[504..])), Some((0x02, 2)), "the last chunk is acknowledged");
    assert_eq!(u.end(), (0x03, 1000));
    assert!(u.staged() && !u.active());
}

#[test]
fn a_wrong_digest_is_refused_and_a_short_image_owes_its_bytes() {
    let image = vec![7u8; 10];
    let mut u = MockUpdate::new();
    u.begin(&begin_body(&image, &[0u8; 32]));
    u.data(&chunk(0, &image));
    assert_eq!(u.end(), (0x15, 0));
    assert!(!u.staged());
    u.begin(&begin_body(&image, &Sha256::digest(&image)));
    u.data(&chunk(0, &image[..4]));
    assert_eq!(u.end(), (0x1A, 6));
    assert_eq!(u.end(), (0x1A, 0), "the session closed");
}

#[test]
fn gaps_overruns_and_bad_sizes_end_the_session() {
    let mut u = MockUpdate::new();
    assert_eq!(u.begin(&[0u8; 10]), (0x1A, 0));
    assert_eq!(u.begin(&begin_body(&[], &[0u8; 32])), (0x12, MOCK_SLOT_SIZE));
    assert_eq!(u.data(&chunk(0, &[1])), Some((0x1A, 0)), "no session");
    u.begin(&begin_body(&[0u8; 8], &[0u8; 32]));
    assert_eq!(u.data(&[0, 0]), Some((0x1A, 1)), "too short");
    assert_eq!(u.data(&chunk(3, &[1])), Some((0x13, 0)));
    assert!(!u.active());
    u.begin(&begin_body(&[0u8; 8], &[0u8; 32]));
    assert_eq!(u.data(&chunk(0, &[0u8; 9])), Some((0x12, 8)));
    u.begin(&begin_body(&[0u8; 8], &[0u8; 32]));
    assert_eq!(u.data(&chunk(0, &[0u8; 505])), Some((0x1A, 504)));
}
