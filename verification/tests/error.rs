use medius::error::{Error, FrameError};
use medius::opcode::PROTO_VER;

fn one_of_each() -> Vec<Error> {
    vec![
        Error::Io(std::io::Error::other("boom")),
        Error::NotFound,
        Error::NoReply,
        Error::BadProtoVer { got: 7 },
        Error::QueryTimeout,
        Error::Disconnected,
        Error::FrameTooLong,
    ]
}

#[test]
fn display_strings_non_empty() {
    for e in one_of_each() {
        assert!(!e.message().is_empty(), "empty Display for {e:?}");
    }
}

#[test]
fn display_strings_distinct() {
    let errs = one_of_each();
    for i in 0..errs.len() {
        for j in (i + 1)..errs.len() {
            assert_ne!(
                errs[i].message(),
                errs[j].message(),
                "Display collision between {:?} and {:?}",
                errs[i],
                errs[j],
            );
        }
    }
}

#[test]
fn bad_proto_ver_message_mentions_versions() {
    let msg = Error::BadProtoVer { got: 9 }.message();
    assert!(msg.contains('9'), "missing got: {msg}");
    assert!(msg.contains(&PROTO_VER.to_string()), "missing expected: {msg}");
}

#[test]
fn frame_error_maps_to_frame_too_long() {
    let fe = FrameError::PayloadTooLong { len: 9_999 };
    let err: Error = fe.into();
    assert!(matches!(err, Error::FrameTooLong));
}

#[test]
fn io_error_maps_via_from() {
    let io = std::io::Error::from(std::io::ErrorKind::TimedOut);
    let err: Error = io.into();
    assert!(matches!(err, Error::Io(_)));
}

#[test]
fn io_message_carries_the_os_text_after_its_prefix() {
    let msg = Error::Io(std::io::Error::other("boom")).message();
    assert_eq!(msg, "io error: boom");
}

#[test]
fn exact_messages_of_plain_variants() {
    assert_eq!(Error::NotFound.message(), "no medius device found");
    assert_eq!(Error::QueryTimeout.message(), "query timed out");
    assert_eq!(Error::BadProtoVer { got: 9 }.message(), "unsupported protocol version 9 (expected 1)");
}

#[test]
fn structured_messages_carry_their_fields() {
    assert_eq!(
        Error::ClipPacketTrigger { reason: "needs a match" }.message(),
        "a clip packet trigger needs a match"
    );
    assert_eq!(
        Error::CatchTableFull { needed: 33, limit: 32 }.message(),
        "subscription needs 33 catch entries; the box holds 32"
    );
    assert_eq!(
        Error::RewriteMaskLength { match_len: 2, mask_len: 1 }.message(),
        "rewrite match and mask differ in length (match 2, mask 1)"
    );
    assert_eq!(Error::FrameTooLong.message(), "frame payload too long (max 512 bytes)");
}
