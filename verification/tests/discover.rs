use medius::discover::{may_clone, openable, pick_by_id, pick_where, probe_listing, BoxInfo};
use medius::error::Error;
use medius::types::{DeviceInfo, DeviceKind, PortInfo, Version};

fn boxinfo(path: &str, serial: Option<&str>, mac: [u8; 6], proto: u8, kind: Option<DeviceKind>) -> BoxInfo {
    BoxInfo {
        port: PortInfo { path: path.to_string(), vid: 0x1a86, pid: 0x55d3, serial: serial.map(|s| s.to_string()) },
        version: Version { proto_ver: proto, fw_major: 1, fw_minor: 0, fw_patch: 0, mac, name: format!("box {path}") },
        device: kind.map(|kind| DeviceInfo { vid: 0x046d, pid: 0xc08b, kind, product: "G502".to_string() }),
    }
}

#[test]
fn a_box_id_is_its_mac_in_lowercase_hex() {
    let b = boxinfo("/dev/a", Some("5A2B"), [0xDE, 0xAD, 0x00, 0x0B, 0xEE, 0xF1], 1, Some(DeviceKind::Mouse));
    assert_eq!(b.id(), "dead000beef1");
    assert_eq!(b.version.mac_hex(), "dead000beef1");
    assert_eq!(b.serial(), Some("5A2B"));
    assert_eq!(b.name(), "box /dev/a");
}

#[test]
fn ids_match_by_mac_or_serial_ignoring_case_and_separators() {
    let boxes = vec![
        boxinfo("/dev/a", Some("AB12"), [1, 2, 3, 4, 5, 6], 1, Some(DeviceKind::Mouse)),
        boxinfo("/dev/b", Some("CD34"), [0xAA, 0xBB, 0xCC, 0xDD, 0xEE, 0xFF], 1, Some(DeviceKind::Keyboard)),
    ];
    assert_eq!(pick_by_id(&boxes, "AA:BB:CC:DD:EE:FF").unwrap().port.path, "/dev/b");
    assert_eq!(pick_by_id(&boxes, "010203040506").unwrap().port.path, "/dev/a");
    assert_eq!(pick_by_id(&boxes, "cd34").unwrap().port.path, "/dev/b");
    assert!(matches!(pick_by_id(&boxes, "nope"), Err(Error::NotFound)));
}

#[test]
fn a_box_on_another_protocol_is_refused_not_skipped() {
    let old = boxinfo("/dev/c", None, [9; 6], 7, None);
    assert!(matches!(openable(&old), Err(Error::BadProtoVer { got: 7 })));
    let boxes = vec![old];
    assert!(matches!(pick_by_id(&boxes, "090909090909"), Err(Error::BadProtoVer { got: 7 })));
    assert!(may_clone(DeviceKind::Mouse, &boxes[0]));
    assert!(matches!(pick_where(&boxes, DeviceKind::Mouse), Err(Error::BadProtoVer { got: 7 })));
}

#[test]
fn picking_by_clone_prefers_a_box_this_build_speaks_to() {
    let boxes = vec![
        boxinfo("/dev/old", None, [1; 6], 7, None),
        boxinfo("/dev/kbd", None, [2; 6], 1, Some(DeviceKind::Keyboard)),
        boxinfo("/dev/mouse", None, [3; 6], 1, Some(DeviceKind::Mouse)),
    ];
    assert_eq!(pick_where(&boxes, DeviceKind::Mouse).unwrap().port.path, "/dev/mouse");
    assert!(!may_clone(DeviceKind::Mouse, &boxes[1]));
    let none: Vec<BoxInfo> = vec![boxes[1].clone()];
    assert!(matches!(pick_where(&none, DeviceKind::Mouse), Err(Error::NotFound)));
}

#[test]
fn a_probe_lists_a_box_on_another_protocol_by_its_version_alone() {
    let b = boxinfo("/dev/x", None, [4; 6], 1, Some(DeviceKind::Mouse));
    let listed = probe_listing(b.port.clone(), b.version.clone(), b.device.clone()).unwrap();
    assert_eq!(listed.device.unwrap().kind, DeviceKind::Mouse);
    assert!(probe_listing(b.port.clone(), b.version.clone(), None).is_none(), "no device read, no listing");
    let old = boxinfo("/dev/y", None, [5; 6], 9, None);
    let listed = probe_listing(old.port.clone(), old.version.clone(), None).unwrap();
    assert!(listed.device.is_none());
    assert_eq!(listed.version.proto_ver, 9);
}
