//! Raw endpoint writes and control transfers: the direction a raw write may take, the setup packet
//! of a control transfer, and the transfer reply's layout.

use crate::error::{Error, RelativeTo};
use crate::opcode::XFER_REFUSED;
use crate::types::{is_relative, Direction};
use vstd::prelude::*;

verus! {

/// Only IN and OUT name one endpoint flow: the bearing-relative pair needs an emit time a raw
/// write lacks, and `Both` names two flows.
pub open spec fn raw_direction_error(d: Direction) -> Option<Error> {
    if d == Direction::Positive || d == Direction::Negative {
        None
    } else if is_relative(d) {
        Some(Error::RelativeDirection { direction: d, what: RelativeTo::RawEndpoint })
    } else {
        Some(Error::RawDirection { direction: d })
    }
}

/// Check the direction of a raw write.
pub fn validate_raw_direction(direction: Direction) -> (r: Result<(), Error>)
    ensures
        r == (match raw_direction_error(direction) {
            None => Ok(()),
            Some(e) => Err(e),
        }),
{
    match direction {
        Direction::Positive | Direction::Negative => Ok(()),
        Direction::With | Direction::Against => Err(
            Error::RelativeDirection { direction, what: RelativeTo::RawEndpoint },
        ),
        Direction::Both => Err(Error::RawDirection { direction }),
    }
}

/// The eight-byte setup packet of a control transfer.
#[derive(Clone, Copy, Debug, PartialEq, Eq, Hash, Structural)]
pub struct Setup {
    /// `bmRequestType`; bit 7 set is device-to-host (IN).
    pub request_type: u8,
    /// `bRequest`.
    pub request: u8,
    /// `wValue`.
    pub value: u16,
    /// `wIndex`.
    pub index: u16,
    /// `wLength`: the data stage's length.
    pub length: u16,
}

/// A 16-bit value, low byte first.
pub open spec fn le16(x: u16) -> Seq<u8> {
    seq![(x % 256) as u8, (x / 256) as u8]
}

/// Whether a setup packet asks for an IN data stage.
pub open spec fn setup_is_in(s: Setup) -> bool {
    s.request_type >= 0x80
}

/// A setup packet's wire bytes.
pub open spec fn setup_bytes(s: Setup) -> Seq<u8> {
    seq![s.request_type, s.request] + le16(s.value) + le16(s.index) + le16(s.length)
}

/// Append a 16-bit value, low byte first.
pub fn push_le16(out: &mut Vec<u8>, x: u16)
    ensures
        final(out)@ == old(out)@ + le16(x),
{
    out.push((x % 256) as u8);
    out.push((x / 256) as u8);
    assert(out@ =~= old(out)@ + le16(x));
}

impl Setup {
    /// A setup packet from its five fields.
    pub fn new(request_type: u8, request: u8, value: u16, index: u16, length: u16) -> (s: Setup)
        ensures
            s == (Setup { request_type, request, value, index, length }),
    {
        Setup { request_type, request, value, index, length }
    }

    /// Whether the data stage runs device-to-host.
    pub fn is_in(&self) -> (r: bool)
        ensures
            r == setup_is_in(*self),
    {
        self.request_type >= 0x80
    }

    /// Append the eight wire bytes.
    pub fn push_bytes(&self, out: &mut Vec<u8>)
        ensures
            final(out)@ == old(out)@ + setup_bytes(*self),
    {
        out.push(self.request_type);
        out.push(self.request);
        push_le16(out, self.value);
        push_le16(out, self.index);
        push_le16(out, self.length);
        assert(out@ =~= old(out)@ + setup_bytes(*self));
    }
}

/// A transfer reply's status byte and IN data: the byte after the opcode, and what follows it. A
/// reply too short to carry a status reads as refused.
pub open spec fn transfer_reply(payload: Seq<u8>) -> (u8, Seq<u8>) {
    (
        if payload.len() > 1 { payload[1] } else { XFER_REFUSED },
        if payload.len() > 2 { payload.subrange(2, payload.len() as int) } else { Seq::empty() },
    )
}

/// Split a transfer reply into its status byte and IN data.
pub fn split_transfer_resp(payload: &[u8]) -> (r: (u8, Vec<u8>))
    ensures
        (r.0, r.1@) == transfer_reply(payload@),
{
    let status = if payload.len() > 1 { payload[1] } else { XFER_REFUSED };
    let mut data: Vec<u8> = Vec::new();
    if payload.len() > 2 {
        let mut i: usize = 2;
        while i < payload.len()
            invariant
                2 <= i <= payload@.len(),
                data@ == payload@.subrange(2, i as int),
            decreases payload@.len() - i,
        {
            data.push(payload[i]);
            assert(payload@.subrange(2, i as int + 1) =~= payload@.subrange(2, i as int).push(payload@[i as int]));
            i = i + 1;
        }
    }
    proof {
        if payload@.len() <= 2 {
            assert(data@ =~= Seq::<u8>::empty());
        }
    }
    (status, data)
}

} // verus!
