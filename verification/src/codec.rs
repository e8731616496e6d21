//! The wire codec: a `TimeMessage` to and from a length-delimited frame.
//!
//! A payload is the message's timestamp as sixteen little-endian bytes
//! followed by the node identifier's UTF-8 bytes. A frame is a four-byte
//! little-endian length prefix followed by that payload. The explicit frame
//! boundary lets a receiver reassemble messages from arbitrary read chunks:
//! `FrameBuffer` accumulates bytes until a full frame is available,
//! independent of per-read byte counts.
use vstd::prelude::*;
use vstd::bytes::{
    lemma_auto_spec_u128_to_from_le_bytes, lemma_auto_spec_u32_to_from_le_bytes,
    spec_u128_from_le_bytes, spec_u128_to_le_bytes, spec_u32_from_le_bytes, spec_u32_to_le_bytes,
    u128_from_le_bytes, u128_to_le_bytes, u32_from_le_bytes, u32_to_le_bytes,
};
use vstd::slice::{slice_index_get, slice_subrange, slice_to_vec};
use vstd::utf8::{decode_utf8, encode_utf8, encode_utf8_decode_utf8, encode_utf8_valid_utf8,
    valid_utf8};

verus! {

/// One exchanged value: who sent it and their adjusted clock reading in
/// milliseconds since the epoch. Immutable once built.
pub struct TimeMessage {
    pub node_id: String,
    pub timestamp: u128,
}

/// The payload bytes that carry a message: the timestamp, then the
/// identifier's UTF-8 encoding.
pub open spec fn payload_of(node_id: Seq<char>, timestamp: u128) -> Seq<u8> {
    spec_u128_to_le_bytes(timestamp) + encode_utf8(node_id)
}

/// What decoding a payload yields: the identifier and timestamp if the bytes
/// are long enough and the identifier part is valid UTF-8, nothing otherwise.
pub open spec fn spec_decode_payload(b: Seq<u8>) -> Option<(Seq<char>, u128)> {
    if b.len() >= 16 && valid_utf8(b.skip(16)) {
        Some((decode_utf8(b.skip(16)), spec_u128_from_le_bytes(b.take(16))))
    } else {
        None
    }
}

/// Decoding inverts encoding: every message's payload decodes back to
/// exactly that message.
pub proof fn lemma_payload_round_trip(node_id: Seq<char>, timestamp: u128)
    ensures
        spec_decode_payload(payload_of(node_id, timestamp)) == Some((node_id, timestamp)),
{
    lemma_auto_spec_u128_to_from_le_bytes();
    encode_utf8_valid_utf8(node_id);
    encode_utf8_decode_utf8(node_id);
    let p = payload_of(node_id, timestamp);
    assert(p.take(16) =~= spec_u128_to_le_bytes(timestamp));
    assert(p.skip(16) =~= encode_utf8(node_id));
}

/// Relies on String::from_utf8: it returns Ok exactly when the bytes are
/// valid UTF-8, and the returned string is their decoding.
#[verifier::external_body]
fn utf8_to_string(v: Vec<u8>) -> (r: Option<String>)
    ensures
        match r {
            Some(s) => valid_utf8(v@) && s@ == decode_utf8(v@),
            None => !valid_utf8(v@),
        },
{
    match String::from_utf8(v) {
        Ok(s) => Some(s),
        Err(_) => None,
    }
}

/// Encodes a message's payload.
pub fn encode_payload(m: &TimeMessage) -> (r: Vec<u8>)
    ensures
        r@ == payload_of(m.node_id@, m.timestamp),
{
    let mut r = u128_to_le_bytes(m.timestamp);
    let bs: &[u8] = m.node_id.as_str().as_bytes();
    let n = bs.len();
    let mut i: usize = 0;
    while i < n
        invariant
            n == bs@.len(),
            i <= n,
            r@ == spec_u128_to_le_bytes(m.timestamp) + bs@.take(i as int),
        decreases n - i,
    {
        r.push(*slice_index_get(bs, i));
        proof {
            assert(bs@.take(i + 1) =~= bs@.take(i as int).push(bs@[i as int]));
        }
        i = i + 1;
    }
    proof {
        assert(bs@.take(n as int) =~= bs@);
    }
    r
}

/// Decodes a payload; malformed bytes yield nothing.
pub fn decode_payload(b: &[u8]) -> (r: Option<TimeMessage>)
    ensures
        match r {
            Some(m) => spec_decode_payload(b@) == Some((m.node_id@, m.timestamp)),
            None => spec_decode_payload(b@) is None,
        },
{
    if b.len() < 16 {
        return None;
    }
    let timestamp = u128_from_le_bytes(slice_subrange(b, 0, 16));
    let id_bytes: Vec<u8> = slice_to_vec(slice_subrange(b, 16, b.len()));
    match utf8_to_string(id_bytes) {
        Some(node_id) => Some(TimeMessage { node_id, timestamp }),
        None => None,
    }
}

/// The frame that carries a payload: a four-byte little-endian length
/// prefix, then the payload itself.
pub open spec fn frame_of(payload: Seq<u8>) -> Seq<u8>
    recommends
        payload.len() <= u32::MAX,
{
    spec_u32_to_le_bytes(payload.len() as u32) + payload
}

/// The announced payload length of a buffer that starts with a prefix.
pub open spec fn frame_len(b: Seq<u8>) -> int
    recommends
        b.len() >= 4,
{
    spec_u32_from_le_bytes(b.take(4)) as int
}

/// Does the buffer hold at least one complete frame?
pub open spec fn has_frame(b: Seq<u8>) -> bool {
    b.len() >= 4 && b.len() >= 4 + frame_len(b)
}

/// The first complete frame's payload.
pub open spec fn first_frame(b: Seq<u8>) -> Seq<u8>
    recommends
        has_frame(b),
{
    b.subrange(4, 4 + frame_len(b))
}

/// What stays in the buffer once the first frame is consumed.
pub open spec fn after_frame(b: Seq<u8>) -> Seq<u8>
    recommends
        has_frame(b),
{
    b.skip(4 + frame_len(b))
}

/// A framed payload at the head of a stream is recovered exactly, whatever
/// bytes follow it: the frame boundary is unambiguous.
pub proof fn lemma_frame_in_stream(payload: Seq<u8>, rest: Seq<u8>)
    requires
        payload.len() <= u32::MAX,
    ensures
        has_frame(frame_of(payload) + rest),
        first_frame(frame_of(payload) + rest) == payload,
        after_frame(frame_of(payload) + rest) == rest,
{
    lemma_auto_spec_u32_to_from_le_bytes();
    let s = frame_of(payload) + rest;
    assert(s.take(4) =~= spec_u32_to_le_bytes(payload.len() as u32));
    assert(s.subrange(4, 4 + payload.len() as int) =~= payload);
    assert(s.skip(4 + payload.len() as int) =~= rest);
}

/// Encodes a message as one frame; a payload too long for the length prefix
/// yields nothing.
pub fn encode_frame(m: &TimeMessage) -> (r: Option<Vec<u8>>)
    ensures
        ({
            let p = payload_of(m.node_id@, m.timestamp);
            match r {
                Some(v) => p.len() <= u32::MAX && v@ == frame_of(p),
                None => p.len() > u32::MAX,
            }
        }),
{
    let payload = encode_payload(m);
    if payload.len() > u32::MAX as usize {
        return None;
    }
    let mut v = u32_to_le_bytes(payload.len() as u32);
    let ghost prefix = v@;
    let n = payload.len();
    let mut i: usize = 0;
    while i < n
        invariant
            n == payload@.len(),
            i <= n,
            v@ == prefix + payload@.take(i as int),
        decreases n - i,
    {
        v.push(payload[i]);
        proof {
            assert(payload@.take(i + 1) =~= payload@.take(i as int).push(payload@[i as int]));
        }
        i = i + 1;
    }
    proof {
        assert(payload@.take(n as int) =~= payload@);
    }
    Some(v)
}

/// The receive-side reassembly buffer: bytes arrive in arbitrary chunks and
/// complete frames leave one at a time.
pub struct FrameBuffer {
    buf: Vec<u8>,
}

impl View for FrameBuffer {
    type V = Seq<u8>;

    /// The bytes received but not yet consumed as frames.
    closed spec fn view(&self) -> Seq<u8> {
        self.buf@
    }
}

impl FrameBuffer {
    pub fn new() -> (r: Self)
        ensures
            r@ == Seq::<u8>::empty(),
    {
        FrameBuffer { buf: Vec::new() }
    }

    /// Appends one read's worth of bytes, however the stream chunked them.
    pub fn push_chunk(&mut self, chunk: &[u8])
        ensures
            final(self)@ == old(self)@ + chunk@,
    {
        let n = chunk.len();
        let mut i: usize = 0;
        while i < n
            invariant
                n == chunk@.len(),
                i <= n,
                self.buf@ == old(self).buf@ + chunk@.take(i as int),
            decreases n - i,
        {
            self.buf.push(*slice_index_get(chunk, i));
            proof {
                assert(chunk@.take(i + 1) =~= chunk@.take(i as int).push(chunk@[i as int]));
            }
            i = i + 1;
        }
        proof {
            assert(chunk@.take(n as int) =~= chunk@);
        }
    }

    /// Takes the first complete frame's payload out of the buffer, or
    /// nothing if no complete frame has arrived yet.
    pub fn next_frame(&mut self) -> (r: Option<Vec<u8>>)
        ensures
            match r {
                Some(p) => has_frame(old(self)@) && p@ == first_frame(old(self)@) && final(self)@
                    == after_frame(old(self)@),
                None => !has_frame(old(self)@) && final(self)@ == old(self)@,
            },
    {
        if self.buf.len() < 4 {
            return None;
        }
        let announced = u32_from_le_bytes(slice_subrange(self.buf.as_slice(), 0, 4));
        proof {
            assert(self.buf@.take(4) =~= self.buf@.subrange(0, 4));
        }
        let plen = announced as usize;
        if self.buf.len() - 4 < plen {
            return None;
        }
        let payload: Vec<u8> = slice_to_vec(
            slice_subrange(self.buf.as_slice(), 4, 4 + plen),
        );
        let remainder: Vec<u8> = slice_to_vec(
            slice_subrange(self.buf.as_slice(), 4 + plen, self.buf.len()),
        );
        self.buf = remainder;
        Some(payload)
    }
}

} // verus!
