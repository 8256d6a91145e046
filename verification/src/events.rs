//! Progress and error events, and the length-prefixed frame arithmetic of
//! the surrounding message channel. Reading and writing the frames is I/O
//! and stays outside the library; the arithmetic that decides how many
//! bytes a frame holds is computed — and proved — here.

use vstd::prelude::*;

verus! {

/// The kind of event sent back over the message channel.
#[derive(Clone, Copy, PartialEq, Eq, Structural, Debug)]
pub enum MessageType {
    Message,
    Logging,
}

impl MessageType {
    /// The tag under which the event is reported.
    pub fn tag(&self) -> (r: &'static str) {
        match self {
            MessageType::Message => "Message",
            MessageType::Logging => "Logging",
        }
    }
}

/// The value of four little-endian length bytes.
pub open spec fn le4(b0: u8, b1: u8, b2: u8, b3: u8) -> int {
    b0 + 256 * b1 + 65536 * b2 + 16777216 * b3
}

/// Decode a frame's four little-endian length bytes.
pub fn frame_len(b0: u8, b1: u8, b2: u8, b3: u8) -> (r: u32)
    ensures
        r as int == le4(b0, b1, b2, b3),
{
    b0 as u32 + 256 * (b1 as u32) + 65536 * (b2 as u32) + 16777216 * (b3 as u32)
}

/// Encode a frame length as its four little-endian bytes.
pub fn frame_len_bytes(x: u32) -> (r: Vec<u8>)
    ensures
        r@.len() == 4,
        le4(r@[0], r@[1], r@[2], r@[3]) == x as int,
{
    let b0 = (x & 0xff) as u8;
    let b1 = ((x >> 8) & 0xff) as u8;
    let b2 = ((x >> 16) & 0xff) as u8;
    let b3 = ((x >> 24) & 0xff) as u8;
    proof {
        assert((x & 0xff) < 256 && ((x >> 8) & 0xff) < 256 && ((x >> 16) & 0xff) < 256 && ((x
            >> 24) & 0xff) < 256) by (bit_vector);
        assert(x == (x & 0xff) + 256 * ((x >> 8) & 0xff) + 65536 * ((x >> 16) & 0xff) + 16777216 * (
        (x >> 24) & 0xff)) by (bit_vector);
    }
    let mut r: Vec<u8> = Vec::new();
    r.push(b0);
    r.push(b1);
    r.push(b2);
    r.push(b3);
    r
}

/// Frame a payload for the channel: four little-endian length bytes, then
/// the payload itself. `None` when the payload cannot be described by a
/// 32-bit length.
pub fn encode_frame(payload: &Vec<u8>) -> (r: Option<Vec<u8>>)
    ensures
        match r {
            Some(f) => {
                &&& payload@.len() <= u32::MAX
                &&& f@.len() == 4 + payload@.len()
                &&& le4(f@[0], f@[1], f@[2], f@[3]) == payload@.len()
                &&& f@.subrange(4, f@.len() as int) == payload@
            },
            None => payload@.len() > u32::MAX,
        },
{
    if payload.len() > u32::MAX as usize {
        return None;
    }
    let mut f = frame_len_bytes(payload.len() as u32);
    let mut k: usize = 0;
    while k < payload.len()
        invariant
            0 <= k <= payload@.len(),
            f@.len() == 4 + k,
            le4(f@[0], f@[1], f@[2], f@[3]) == payload@.len(),
            f@.subrange(4, f@.len() as int) =~= payload@.subrange(0, k as int),
        decreases payload@.len() - k,
    {
        f.push(payload[k]);
        proof {
            assert(f@.subrange(4, f@.len() as int) =~= payload@.subrange(0, k + 1));
        }
        k = k + 1;
    }
    proof {
        assert(payload@.subrange(0, payload@.len() as int) =~= payload@);
    }
    Some(f)
}

} // verus!
