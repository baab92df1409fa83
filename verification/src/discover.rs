//! Multi-box discovery: a box's stable identity, and picking one box among those connected by
//! identity or by what it clones.

use crate::error::Error;
use crate::opcode::PROTO_VER;
use crate::types::{DeviceInfo, DeviceKind, PortInfo, Version};
use vstd::prelude::*;
use vstd::string::{StringExecFns, StringSliceAdditionalSpecFns};

verus! {

/// The lowercase hexadecimal digit character of `d` in `0..16`.
pub open spec fn hex_lower_char(d: int) -> char {
    if d < 10 {
        crate::text::digit_char(d)
    } else if d == 10 {
        'a'
    } else if d == 11 {
        'b'
    } else if d == 12 {
        'c'
    } else if d == 13 {
        'd'
    } else if d == 14 {
        'e'
    } else {
        'f'
    }
}

/// The ASCII code of the lowercase hexadecimal digit of `d` in `0..16`.
pub open spec fn hex_lower_byte(d: int) -> u8 {
    if d < 10 {
        (48 + d) as u8
    } else {
        (87 + d) as u8
    }
}

/// A MAC as lowercase hexadecimal text, two digits a byte.
pub open spec fn mac_hex_chars(mac: Seq<u8>) -> Seq<char>
    decreases mac.len(),
{
    if mac.len() == 0 {
        Seq::empty()
    } else {
        mac_hex_chars(mac.drop_last()) + seq![
            hex_lower_char(mac.last() as int / 16),
            hex_lower_char(mac.last() as int % 16),
        ]
    }
}

/// A MAC as the ASCII bytes of its lowercase hexadecimal text.
pub open spec fn mac_hex_bytes(mac: Seq<u8>) -> Seq<u8>
    decreases mac.len(),
{
    if mac.len() == 0 {
        Seq::empty()
    } else {
        mac_hex_bytes(mac.drop_last()) + seq![
            hex_lower_byte(mac.last() as int / 16),
            hex_lower_byte(mac.last() as int % 16),
        ]
    }
}

fn push_hex_lower(s: &mut String, d: u8)
    requires
        d < 16,
    ensures
        final(s)@ == old(s)@.push(hex_lower_char(d as int)),
{
    let t: &str = if d == 0 {
        "0"
    } else if d == 1 {
        "1"
    } else if d == 2 {
        "2"
    } else if d == 3 {
        "3"
    } else if d == 4 {
        "4"
    } else if d == 5 {
        "5"
    } else if d == 6 {
        "6"
    } else if d == 7 {
        "7"
    } else if d == 8 {
        "8"
    } else if d == 9 {
        "9"
    } else if d == 10 {
        "a"
    } else if d == 11 {
        "b"
    } else if d == 12 {
        "c"
    } else if d == 13 {
        "d"
    } else if d == 14 {
        "e"
    } else {
        "f"
    };
    proof {
        reveal_strlit("0");
        reveal_strlit("1");
        reveal_strlit("2");
        reveal_strlit("3");
        reveal_strlit("4");
        reveal_strlit("5");
        reveal_strlit("6");
        reveal_strlit("7");
        reveal_strlit("8");
        reveal_strlit("9");
        reveal_strlit("a");
        reveal_strlit("b");
        reveal_strlit("c");
        reveal_strlit("d");
        reveal_strlit("e");
        reveal_strlit("f");
    }
    s.append(t);
    assert(s@ =~= old(s)@.push(hex_lower_char(d as int)));
}

fn hex_lower_code(d: u8) -> (b: u8)
    requires
        d < 16,
    ensures
        b == hex_lower_byte(d as int),
{
    if d < 10 {
        48 + d
    } else {
        87 + d
    }
}

impl Version {
    /// The device chip's base MAC as 12 lowercase hexadecimal digits.
    pub fn mac_hex(&self) -> (s: String)
        ensures
            s@ == mac_hex_chars(self.mac@),
    {
        let mut s = String::new();
        let mut i: usize = 0;
        while i < 6
            invariant
                i <= 6,
                self.mac@.len() == 6,
                s@ == mac_hex_chars(self.mac@.take(i as int)),
            decreases 6 - i,
        {
            let b = self.mac[i];
            push_hex_lower(&mut s, b / 16);
            push_hex_lower(&mut s, b % 16);
            proof {
                assert(self.mac@.take(i as int + 1).drop_last() =~= self.mac@.take(i as int));
                assert(self.mac@.take(i as int + 1).last() == b);
            }
            assert(s@ =~= mac_hex_chars(self.mac@.take(i as int + 1)));
            i = i + 1;
        }
        assert(self.mac@.take(6) =~= self.mac@);
        s
    }
}

/// The ASCII bytes of a MAC's lowercase hexadecimal text.
fn mac_hex_code(mac: &[u8; 6]) -> (v: Vec<u8>)
    ensures
        v@ == mac_hex_bytes(mac@),
{
    let mut v: Vec<u8> = Vec::new();
    let mut i: usize = 0;
    while i < 6
        invariant
            i <= 6,
            mac@.len() == 6,
            v@ == mac_hex_bytes(mac@.take(i as int)),
        decreases 6 - i,
    {
        let b = mac[i];
        v.push(hex_lower_code(b / 16));
        v.push(hex_lower_code(b % 16));
        proof {
            assert(mac@.take(i as int + 1).drop_last() =~= mac@.take(i as int));
            assert(mac@.take(i as int + 1).last() == b);
        }
        assert(v@ =~= mac_hex_bytes(mac@.take(i as int + 1)));
        i = i + 1;
    }
    assert(mac@.take(6) =~= mac@);
    v
}

/// One discovered box: its serial port, firmware version, and the device it clones.
#[derive(Debug, Clone)]
pub struct BoxInfo {
    /// The control serial port.
    pub port: PortInfo,
    /// Firmware version, control protocol, base MAC and name.
    pub version: Version,
    /// The cloned device's identity; `None` for a box that speaks another control protocol, which
    /// this build reads nothing from past its version.
    pub device: Option<DeviceInfo>,
}

impl BoxInfo {
    /// The canonical, stable box id: the device chip's MAC as 12 lowercase hex digits.
    pub fn id(&self) -> (s: String)
        ensures
            s@ == mac_hex_chars(self.version.mac@),
    {
        self.version.mac_hex()
    }

    /// The control adapter's serial, if it serves one.
    pub fn serial(&self) -> (r: Option<&str>)
        ensures
            match self.port.serial {
                Some(s) => r matches Some(t) && t@ == s@,
                None => r is None,
            },
    {
        match &self.port.serial {
            Some(s) => Some(s.as_str()),
            None => None,
        }
    }

    /// The box's human-readable name.
    pub fn name(&self) -> (s: &str)
        ensures
            s@ == self.version.name@,
    {
        self.version.name.as_str()
    }
}

/// The listing of the box behind a port that reported `version`: a box on this build's protocol
/// is listed with the device it clones, read as `info` (not listed when that read failed); a box on
/// another protocol is listed on its version alone, so one that needs an update shows up as one.
pub fn probe_listing(port: PortInfo, version: Version, info: Option<DeviceInfo>) -> (r: Option<BoxInfo>)
    ensures
        version.proto_ver != PROTO_VER ==> r == Some(BoxInfo { port, version, device: None }),
        version.proto_ver == PROTO_VER ==> r == (match info {
            Some(d) => Some(BoxInfo { port, version, device: Some(d) }),
            None => None,
        }),
{
    if version.proto_ver != PROTO_VER {
        return Some(BoxInfo { port, version, device: None });
    }
    match info {
        Some(d) => Some(BoxInfo { port, version, device: Some(d) }),
        None => None,
    }
}

/// A box this build cannot speak to is refused with the protocol it reported, never skipped.
pub open spec fn open_result(b: BoxInfo) -> Result<(), Error> {
    match b.device {
        Some(_) => Ok(()),
        None => Err(Error::BadProtoVer { got: b.version.proto_ver }),
    }
}

/// Whether a box may be opened, and if not the refusal.
pub fn openable(b: &BoxInfo) -> (r: Result<(), Error>)
    ensures
        r == open_result(*b),
{
    match b.device {
        Some(_) => Ok(()),
        None => Err(Error::BadProtoVer { got: b.version.proto_ver }),
    }
}

/// An ASCII letter's lowercase; any other byte unchanged.
pub open spec fn lower_byte(b: u8) -> u8 {
    if 65 <= b <= 90 {
        (b + 32) as u8
    } else {
        b
    }
}

/// Whether a byte is an ASCII letter or digit.
pub open spec fn alnum_byte(b: u8) -> bool {
    (48 <= b <= 57) || (65 <= b <= 90) || (97 <= b <= 122)
}

/// An id as typed, reduced to its ASCII letters and digits, lowercased: separators and case do not
/// matter.
pub open spec fn normalize_id(s: Seq<u8>) -> Seq<u8>
    decreases s.len(),
{
    if s.len() == 0 {
        Seq::empty()
    } else if alnum_byte(s.last()) {
        normalize_id(s.drop_last()).push(lower_byte(s.last()))
    } else {
        normalize_id(s.drop_last())
    }
}

/// Whether two byte strings are equal ignoring ASCII case.
pub open spec fn eq_ignore_case(a: Seq<u8>, b: Seq<u8>) -> bool {
    a.len() == b.len() && forall|i: int| 0 <= i < a.len() ==> lower_byte(a[i]) == lower_byte(b[i])
}

/// Whether a box answers to an id: its MAC id is the normalized id, or its serial is the id (or the
/// normalized id) ignoring case.
pub open spec fn answers_to(b: BoxInfo, id: Seq<u8>) -> bool {
    mac_hex_bytes(b.version.mac@) == normalize_id(id) || match b.port.serial {
        Some(s) => eq_ignore_case(vstd::utf8::encode_utf8(s@), id) || eq_ignore_case(
            vstd::utf8::encode_utf8(s@),
            normalize_id(id),
        ),
        None => false,
    }
}

/// The first position satisfying `p`, if any.
pub open spec fn first_box(s: Seq<BoxInfo>, p: spec_fn(BoxInfo) -> bool) -> Option<int>
    decreases s.len(),
{
    if s.len() == 0 {
        None
    } else {
        match first_box(s.drop_last(), p) {
            Some(i) => Some(i),
            None => if p(s.last()) {
                Some(s.len() - 1)
            } else {
                None
            },
        }
    }
}

proof fn lemma_first_box_prefix(s: Seq<BoxInfo>, p: spec_fn(BoxInfo) -> bool, n: int)
    requires
        0 <= n <= s.len(),
        first_box(s.take(n), p) is Some,
    ensures
        first_box(s, p) == first_box(s.take(n), p),
    decreases s.len() - n,
{
    if n < s.len() {
        assert(s.take(n + 1).drop_last() =~= s.take(n));
        lemma_first_box_prefix(s, p, n + 1);
    } else {
        assert(s.take(n) =~= s);
    }
}

fn lower(b: u8) -> (r: u8)
    ensures
        r == lower_byte(b),
{
    if 65 <= b && b <= 90 {
        b + 32
    } else {
        b
    }
}

fn normalize(s: &[u8]) -> (v: Vec<u8>)
    ensures
        v@ == normalize_id(s@),
{
    let mut v: Vec<u8> = Vec::new();
    let mut i: usize = 0;
    while i < s.len()
        invariant
            i <= s@.len(),
            v@ == normalize_id(s@.take(i as int)),
        decreases s@.len() - i,
    {
        assert(s@.take(i as int + 1).drop_last() =~= s@.take(i as int));
        let b = s[i];
        if (48 <= b && b <= 57) || (65 <= b && b <= 90) || (97 <= b && b <= 122) {
            v.push(lower(b));
        }
        i = i + 1;
    }
    assert(s@.take(s@.len() as int) =~= s@);
    v
}

fn eq_ic(a: &[u8], b: &[u8]) -> (r: bool)
    ensures
        r == eq_ignore_case(a@, b@),
{
    if a.len() != b.len() {
        return false;
    }
    let mut i: usize = 0;
    while i < a.len()
        invariant
            a@.len() == b@.len(),
            i <= a@.len(),
            forall|j: int| 0 <= j < i ==> lower_byte(a@[j]) == lower_byte(b@[j]),
        decreases a@.len() - i,
    {
        if lower(a[i]) != lower(b[i]) {
            return false;
        }
        i = i + 1;
    }
    true
}

fn box_answers(b: &BoxInfo, id: &[u8], want: &Vec<u8>) -> (r: bool)
    requires
        want@ == normalize_id(id@),
    ensures
        r == answers_to(*b, id@),
{
    let mac = mac_hex_code(&b.version.mac);
    if crate::bytes::bytes_eq(&mac, want) {
        return true;
    }
    match &b.port.serial {
        Some(s) => {
            let sb = s.as_str().as_bytes();
            eq_ic(sb, id) || eq_ic(sb, want.as_slice())
        },
        None => false,
    }
}

/// The box answering to `id` (its MAC id or its control adapter's serial), the first of several;
/// not found when none answers, and refused when it speaks another protocol.
pub fn pick_by_id<'a>(boxes: &'a Vec<BoxInfo>, id: &str) -> (r: Result<&'a BoxInfo, Error>)
    ensures
        match first_box(boxes@, |b: BoxInfo| answers_to(b, id.spec_bytes())) {
            None => r == Err::<&BoxInfo, Error>(Error::NotFound),
            Some(i) => match open_result(boxes@[i]) {
                Ok(()) => r matches Ok(b) && *b == boxes@[i],
                Err(e) => r == Err::<&BoxInfo, Error>(e),
            },
        },
{
    let idb = id.as_bytes();
    let want = normalize(idb);
    let ghost p = |b: BoxInfo| answers_to(b, id.spec_bytes());
    let mut i: usize = 0;
    while i < boxes.len()
        invariant
            i <= boxes@.len(),
            idb@ == id.spec_bytes(),
            want@ == normalize_id(idb@),
            p == (|b: BoxInfo| answers_to(b, id.spec_bytes())),
            first_box(boxes@.take(i as int), p) is None,
        decreases boxes@.len() - i,
    {
        assert(boxes@.take(i as int + 1).drop_last() =~= boxes@.take(i as int));
        if box_answers(&boxes[i], idb, &want) {
            proof {
                assert(boxes@.take(i as int + 1).last() == boxes@[i as int]);
                lemma_first_box_prefix(boxes@, p, i as int + 1);
            }
            let b = &boxes[i];
            return match openable(b) {
                Ok(()) => Ok(b),
                Err(e) => Err(e),
            };
        }
        i = i + 1;
    }
    assert(boxes@.take(boxes@.len() as int) =~= boxes@);
    Err(Error::NotFound)
}

/// Whether a box may clone `kind`: a box on another protocol reports no clone, so it may.
pub open spec fn may_clone_spec(kind: DeviceKind, b: BoxInfo) -> bool {
    match b.device {
        Some(d) => d.kind == kind,
        None => true,
    }
}

/// Whether a box may clone `kind`.
pub fn may_clone(kind: DeviceKind, b: &BoxInfo) -> (r: bool)
    ensures
        r == may_clone_spec(kind, *b),
{
    match &b.device {
        Some(d) => d.kind == kind,
        None => true,
    }
}

/// The box to open for a clone of `kind`: the first one this build speaks to that clones it; only
/// when none does, the first one that may (which, on another protocol, is refused as such); not
/// found when none may.
pub fn pick_where(boxes: &Vec<BoxInfo>, kind: DeviceKind) -> (r: Result<&BoxInfo, Error>)
    ensures
        match first_box(boxes@, |b: BoxInfo| b.device is Some && may_clone_spec(kind, b)) {
            Some(i) => r matches Ok(b) && *b == boxes@[i],
            None => match first_box(boxes@, |b: BoxInfo| may_clone_spec(kind, b)) {
                None => r == Err::<&BoxInfo, Error>(Error::NotFound),
                Some(j) => match open_result(boxes@[j]) {
                    Ok(()) => r matches Ok(b) && *b == boxes@[j],
                    Err(e) => r == Err::<&BoxInfo, Error>(e),
                },
            },
        },
{
    let ghost p = |b: BoxInfo| b.device is Some && may_clone_spec(kind, b);
    let ghost q = |b: BoxInfo| may_clone_spec(kind, b);
    let mut i: usize = 0;
    while i < boxes.len()
        invariant
            i <= boxes@.len(),
            p == (|b: BoxInfo| b.device is Some && may_clone_spec(kind, b)),
            first_box(boxes@.take(i as int), p) is None,
        decreases boxes@.len() - i,
    {
        assert(boxes@.take(i as int + 1).drop_last() =~= boxes@.take(i as int));
        if boxes[i].device.is_some() && may_clone(kind, &boxes[i]) {
            proof {
                assert(boxes@.take(i as int + 1).last() == boxes@[i as int]);
                lemma_first_box_prefix(boxes@, p, i as int + 1);
            }
            let b = &boxes[i];
            assert(open_result(*b) is Ok);
            return Ok(b);
        }
        i = i + 1;
    }
    assert(boxes@.take(boxes@.len() as int) =~= boxes@);
    let mut j: usize = 0;
    while j < boxes.len()
        invariant
            j <= boxes@.len(),
            q == (|b: BoxInfo| may_clone_spec(kind, b)),
            p == (|b: BoxInfo| b.device is Some && may_clone_spec(kind, b)),
            first_box(boxes@, p) is None,
            first_box(boxes@.take(j as int), q) is None,
        decreases boxes@.len() - j,
    {
        assert(boxes@.take(j as int + 1).drop_last() =~= boxes@.take(j as int));
        if may_clone(kind, &boxes[j]) {
            proof {
                assert(boxes@.take(j as int + 1).last() == boxes@[j as int]);
                lemma_first_box_prefix(boxes@, q, j as int + 1);
            }
            let b = &boxes[j];
            return match openable(b) {
                Ok(()) => Ok(b),
                Err(e) => Err(e),
            };
        }
        j = j + 1;
    }
    assert(boxes@.take(boxes@.len() as int) =~= boxes@);
    Err(Error::NotFound)
}

} // verus!
