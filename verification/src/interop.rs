//! Length-prefixed frames for messages that travel over a byte stream.

use vstd::prelude::*;

verus! {

/// The four bytes that hold `len`, the most significant first.
pub open spec fn length_prefix(len: int) -> Seq<u8> {
    seq![
        (len / 0x100_0000 % 0x100) as u8,
        (len / 0x1_0000 % 0x100) as u8,
        (len / 0x100 % 0x100) as u8,
        (len % 0x100) as u8,
    ]
}

/// The frame of `payload`: its length in four bytes, then the payload.
pub open spec fn frame_of(payload: Seq<u8>) -> Seq<u8> {
    length_prefix(payload.len() as int) + payload
}

/// The number that four bytes hold, the most significant first.
pub open spec fn prefix_value(prefix: Seq<u8>) -> int {
    prefix[0] * 0x100_0000 + prefix[1] * 0x1_0000 + prefix[2] * 0x100 + prefix[3]
}

/// A frame starts with its payload's length and goes on with the payload, so
/// a reader can find where the payload ends.
pub proof fn lemma_frame_holds_length_and_payload(payload: Seq<u8>)
    requires
        payload.len() <= i32::MAX,
    ensures
        frame_of(payload).len() == 4 + payload.len(),
        prefix_value(frame_of(payload).subrange(0, 4)) == payload.len(),
        frame_of(payload).subrange(4, 4 + payload.len() as int) == payload,
{
    let frame = frame_of(payload);
    assert(frame.subrange(0, 4) =~= length_prefix(payload.len() as int));
    assert(frame.subrange(4, 4 + payload.len() as int) =~= payload);
}

fn frame_bytes(payload: &[u8]) -> (frame: Vec<u8>)
    requires
        payload@.len() <= i32::MAX,
    ensures
        frame@ == frame_of(payload@),
{
    let len = payload.len();
    let mut frame: Vec<u8> = Vec::new();
    frame.push((len / 0x100_0000 % 0x100) as u8);
    frame.push((len / 0x1_0000 % 0x100) as u8);
    frame.push((len / 0x100 % 0x100) as u8);
    frame.push((len % 0x100) as u8);
    let mut i: usize = 0;
    while i < len
        invariant
            i <= len,
            len == payload@.len(),
            frame@ == length_prefix(len as int) + payload@.take(i as int),
        decreases len - i,
    {
        frame.push(payload[i]);
        proof {
            assert(payload@.take(i + 1) =~= payload@.take(i as int).push(payload@[i as int]));
        }
        i += 1;
    }
    proof {
        assert(payload@.take(len as int) =~= payload@);
    }
    frame
}

/// Framing for byte strings that are sent as one message.
pub trait BytesExt<T> {
    /// The bytes to be framed.
    spec fn payload(self) -> Seq<u8>;

    /// Calculates the length of the slice as a 4 byte, big-endian i32 and
    /// returns a copy of the slice with the encoded length prepended to it.
    fn to_frame(self) -> (frame: Vec<u8>)
        requires
            self.payload().len() <= i32::MAX,
        ensures
            frame@ == frame_of(self.payload()),
    ;
}

impl BytesExt<u8> for &[u8] {
    open spec fn payload(self) -> Seq<u8> {
        self@
    }

    fn to_frame(self) -> (frame: Vec<u8>) {
        frame_bytes(self)
    }
}

/// Prepends to `b` its length as a 4 byte, big-endian i32.
pub fn construct_frame(b: Vec<u8>) -> (frame: Vec<u8>)
    requires
        b@.len() <= i32::MAX,
    ensures
        frame@ == frame_of(b@),
{
    frame_bytes(b.as_slice())
}

} // verus!
