use medius::keyed::KeyedRows;
use medius::text::{push_decimal, push_hex, push_signed};
use medius::types::{Axis, Button, Class, Direction, LockTarget, Usage};

#[test]
fn numbers_render_as_text() {
    let mut s = String::from("n=");
    push_decimal(&mut s, 0);
    s.push(' ');
    push_decimal(&mut s, 18_446_744_073_709_551_615);
    s.push(' ');
    push_signed(&mut s, -255);
    s.push(' ');
    push_signed(&mut s, i64::MIN);
    assert_eq!(s, "n=0 18446744073709551615 -255 -9223372036854775808");
    let mut h = String::new();
    push_hex(&mut h, 0x1a86, 4);
    h.push(' ');
    push_hex(&mut h, 0xE9, 4);
    assert_eq!(h.to_lowercase(), "1a86 00e9");
}

#[test]
fn keyed_rows_stay_sorted_and_replace_by_key() {
    let mut r: KeyedRows<u8> = KeyedRows::new();
    assert!(r.is_empty());
    assert_eq!(r.insert(30, 3), None);
    assert_eq!(r.insert(10, 1), None);
    assert_eq!(r.insert(20, 2), None);
    assert_eq!(r.insert(20, 22), Some(2));
    let rows: Vec<(u64, u8)> = (0..r.len()).map(|i| r.row(i)).collect();
    assert_eq!(rows, vec![(10, 1), (20, 22), (30, 3)]);
    assert_eq!(r.get(20), Some(22));
    assert_eq!(r.find(30), Some(2));
    assert_eq!(r.find_in_range(11, 25), Some(1));
    assert_eq!(r.find_in_range(31, 99), None);
    assert_eq!(r.remove(10), Some(1));
    assert_eq!(r.remove(10), None);
    assert!(!r.contains(10));
    let copy = r.duplicate();
    r.set_value_at(0, 9);
    assert_eq!(r.get(20), Some(9));
    assert_eq!(copy.get(20), Some(22));
    r.clear();
    assert_eq!(r.len(), 0);
}

#[test]
fn wire_ids_of_the_basic_types() {
    assert_eq!(Button::Side2.as_id(), 4);
    assert_eq!(Button::from_id(2), Some(Button::Middle));
    assert_eq!(Button::from_id(5), None);
    assert_eq!(Button::Right.usage(), Usage { class: Class::Button, id: 1 });
    assert_eq!(Class::from_u8(3), Some(Class::Media));
    assert_eq!(Class::from_u8(0), None);
    assert_eq!(Axis::Pan.as_u16(), 3);
    assert_eq!(Direction::of_delta(-3), Direction::Negative);
    assert!(Direction::Against.is_relative());
    assert_eq!(LockTarget::Axis(Axis::Wheel).class_id(), (0, 2));
    assert_eq!(LockTarget::Usage(Usage::new(Class::Key, 0x29)).class_id(), (2, 0x29));
}
