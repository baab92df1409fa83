use medius::connect::{
    check_proto, next_backoff_ms, reconnect_candidates, AdoptScan, AdoptVerdict, ProbeReply, ProbeStep,
    VersionProbe, AUTO_RECONNECT_MAX_MS, AUTO_RECONNECT_MIN_MS, HANDSHAKE_ATTEMPTS,
};
use medius::correlation::{PendingTable, ReplyKind};
use medius::error::Error;
use medius::types::{PortInfo, Version};

fn version(proto_ver: u8, mac: [u8; 6]) -> Version {
    Version { proto_ver, fw_major: 1, fw_minor: 2, fw_patch: 3, mac, name: "medius".to_string() }
}

fn port(path: &str, serial: Option<&str>) -> PortInfo {
    PortInfo { path: path.to_string(), vid: 0x1a86, pid: 0x55d3, serial: serial.map(|s| s.to_string()) }
}

#[test]
fn the_probe_returns_the_first_version() {
    let mut p = VersionProbe::new();
    assert!(matches!(p.on_reply(ProbeReply::Unparseable), ProbeStep::Retry));
    assert!(matches!(p.on_reply(ProbeReply::Failed(Error::QueryTimeout)), ProbeStep::Retry));
    match p.on_reply(ProbeReply::Version(version(1, [0; 6]))) {
        ProbeStep::Done(v) => assert_eq!(v.fw_minor, 2),
        other => panic!("expected Done, got {other:?}"),
    }
    assert_eq!(p.attempts, 3);
}

#[test]
fn a_silent_box_gives_no_reply_after_the_last_attempt() {
    let mut p = VersionProbe::new();
    for _ in 1..HANDSHAKE_ATTEMPTS {
        assert!(matches!(p.on_reply(ProbeReply::Failed(Error::QueryTimeout)), ProbeStep::Retry));
    }
    assert!(matches!(p.on_reply(ProbeReply::Failed(Error::QueryTimeout)), ProbeStep::Fail(Error::NoReply)));
}

#[test]
fn another_error_ends_the_handshake_at_once() {
    let mut p = VersionProbe::new();
    assert!(matches!(p.on_reply(ProbeReply::Failed(Error::Disconnected)), ProbeStep::Fail(Error::Disconnected)));
}

#[test]
fn the_protocol_must_match() {
    assert!(check_proto(version(1, [0; 6])).is_ok());
    assert!(matches!(check_proto(version(9, [0; 6])), Err(Error::BadProtoVer { got: 9 })));
}

#[test]
fn backoff_doubles_up_to_the_cap() {
    let mut ms = AUTO_RECONNECT_MIN_MS;
    let mut seen = vec![ms];
    for _ in 0..6 {
        ms = next_backoff_ms(ms);
        seen.push(ms);
    }
    assert_eq!(seen, vec![100, 200, 400, 800, 1600, 2000, 2000]);
    assert_eq!(next_backoff_ms(u64::MAX), AUTO_RECONNECT_MAX_MS);
}

#[test]
fn a_known_serial_narrows_the_rescan() {
    let ports = vec![port("/dev/a", Some("X1")), port("/dev/b", Some("Y2")), port("/dev/c", None)];
    assert_eq!(reconnect_candidates(&Some("Y2".to_string()), &ports), vec![1]);
    assert_eq!(reconnect_candidates(&Some("Z9".to_string()), &ports), vec![0, 1, 2]);
    assert_eq!(reconnect_candidates(&None, &ports), vec![0, 1, 2]);
    assert!(reconnect_candidates(&None, &vec![]).is_empty());
}

#[test]
fn the_rescan_adopts_only_the_same_box_on_this_protocol() {
    let mine = [1, 2, 3, 4, 5, 6];
    let other = [9, 9, 9, 9, 9, 9];
    let mut scan = AdoptScan::new();
    assert_eq!(scan.consider(&Some(version(1, other)), &Some(mine)), AdoptVerdict::Skip);
    assert_eq!(scan.consider(&None, &Some(mine)), AdoptVerdict::Skip);
    assert_eq!(scan.consider(&Some(version(7, mine)), &Some(mine)), AdoptVerdict::Refuse(7));
    assert!(matches!(scan.failure(), Error::BadProtoVer { got: 7 }));
    assert_eq!(scan.consider(&Some(version(1, mine)), &Some(mine)), AdoptVerdict::Adopt);

    let mut bare = AdoptScan::new();
    assert_eq!(bare.consider(&None, &None), AdoptVerdict::Adopt);
    assert!(matches!(bare.failure(), Error::NotFound));
}

#[test]
fn registration_takes_the_next_free_seq() {
    let mut t = PendingTable::new();
    let mut counter: u8 = 254;
    let a = t.register(&mut counter, 1, ReplyKind::Resp, 0x01);
    assert_eq!((a, counter), (254, 255));
    let b = t.register(&mut counter, 2, ReplyKind::Resp, 0x02);
    assert_eq!((b, counter), (255, 0));
    counter = 254;
    let c = t.register(&mut counter, 3, ReplyKind::TransferResp, 0x81);
    assert_eq!((c, counter), (0, 1));
    assert_eq!(t.len(), 3);
}

#[test]
fn a_full_table_overwrites_the_counters_seq() {
    let mut t = PendingTable::new();
    let mut counter: u8 = 0;
    for g in 0..256u64 {
        t.register(&mut counter, g, ReplyKind::Resp, 0x01);
    }
    assert_eq!(t.len(), 256);
    counter = 10;
    let s = t.register(&mut counter, 999, ReplyKind::Resp, 0x05);
    assert_eq!((s, counter), (10, 11));
    assert_eq!(t.len(), 256);
}

#[test]
fn replies_reach_only_the_waiter_they_answer() {
    let mut t = PendingTable::new();
    let mut counter: u8 = 7;
    let q = t.register(&mut counter, 1, ReplyKind::TransferResp, 0x81);
    assert!(!t.deliver(ReplyKind::Resp, q, &[0x81, 0]), "a RESP never answers a TRANSFER");
    assert!(!t.deliver(ReplyKind::TransferResp, q, &[0x82, 0]));
    assert!(!t.deliver(ReplyKind::TransferResp, q, &[]));
    assert!(!t.deliver(ReplyKind::TransferResp, q.wrapping_add(1), &[0x81]));
    assert!(t.contains(q));
    assert!(t.deliver(ReplyKind::TransferResp, q, &[0x81, 0, 5]));
    assert!(!t.contains(q));
    assert!(!t.deliver(ReplyKind::TransferResp, q, &[0x81, 0, 5]), "delivered once");
}

#[test]
fn a_timed_out_waiter_is_withdrawn_by_generation() {
    let mut t = PendingTable::new();
    let mut counter: u8 = 0;
    let s = t.register(&mut counter, 41, ReplyKind::Resp, 0x01);
    t.cancel(s, 40);
    assert!(t.contains(s), "a stale generation leaves the newer waiter");
    t.cancel(s, 41);
    assert!(!t.contains(s));
    assert_eq!(t.len(), 0);
}
