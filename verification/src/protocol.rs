//! The per-connection handler state machine and the broadcast build step.
//!
//! A handler is a two-state machine, ACTIVE or CLOSED. An orderly close
//! (zero-length read) or a read error removes the peer from the registry and
//! closes the handler; a chunk of bytes is fed to the reassembly buffer, and
//! every complete frame in it is decoded — a malformed payload is dropped
//! silently, a decoded timestamp adjusts the offset — while the handler stays
//! ACTIVE and the registry is untouched.
//!
//! The broadcast side builds the frame a node sends on each tick: its own
//! identifier and its wall clock plus the current offset.
use vstd::prelude::*;
use crate::codec::{
    after_frame, decode_payload, encode_frame, first_frame, frame_of, has_frame, payload_of,
    spec_decode_payload, FrameBuffer, TimeMessage,
};
use crate::offset::{adjust_in_range, adjust_offset, spec_adjust};
use crate::registry::PeerRegistry;

verus! {

/// The handler's two states.
#[derive(Clone, Copy, PartialEq, Eq, Structural, Debug)]
pub enum HandlerState {
    Active,
    Closed,
}

/// What one read from the peer's stream produced: an orderly close, a read
/// error, or a chunk of bytes (of any framing-ignorant size).
pub enum ReadEvent {
    Eof,
    ReadError,
    Data(Vec<u8>),
}

/// The effect of one complete frame's payload on the offset: a malformed
/// payload changes nothing; a decoded timestamp moves the offset by half the
/// disagreement, if that arithmetic stays representable.
pub open spec fn spec_apply_payload(p: Seq<u8>, offset: i128, local_now: i128) -> i128 {
    match spec_decode_payload(p) {
        Some(decoded) => {
            let ts = decoded.1;
            if adjust_in_range(offset, local_now, ts) {
                spec_adjust(offset as int, local_now as int, ts as int) as i128
            } else {
                offset
            }
        },
        None => offset,
    }
}

/// Consuming every complete frame in a buffer: what remains of the buffer,
/// and the offset after the frames' payloads were applied in order.
pub open spec fn spec_drain(b: Seq<u8>, offset: i128, local_now: i128) -> (Seq<u8>, i128)
    decreases b.len(),
{
    if has_frame(b) {
        spec_drain(after_frame(b), spec_apply_payload(first_frame(b), offset, local_now), local_now)
    } else {
        (b, offset)
    }
}

/// What one broadcast does to its receiver. A frame carrying a sender's
/// message arrives at the head of a receiver's stream: consuming the stream
/// applies that one timestamp — moving the offset by half the disagreement
/// when the arithmetic is representable — and then goes on with the rest of
/// the stream exactly as if the frame had never been there. One sent message
/// is applied once, never resliced or reread, however the transport chunks
/// the bytes around it.
pub proof fn lemma_broadcast_applies_once(
    node_id: Seq<char>,
    ts: u128,
    rest: Seq<u8>,
    offset: i128,
    local_now: i128,
)
    requires
        payload_of(node_id, ts).len() <= u32::MAX,
    ensures
        spec_drain(frame_of(payload_of(node_id, ts)) + rest, offset, local_now) == spec_drain(
            rest,
            if adjust_in_range(offset, local_now, ts) {
                spec_adjust(offset as int, local_now as int, ts as int) as i128
            } else {
                offset
            },
            local_now,
        ),
{
    let payload = payload_of(node_id, ts);
    crate::codec::lemma_frame_in_stream(payload, rest);
    crate::codec::lemma_payload_round_trip(node_id, ts);
}

/// Applies one payload to the offset.
pub fn apply_payload(p: &Vec<u8>, offset: i128, local_now: i128) -> (r: i128)
    ensures
        r == spec_apply_payload(p@, offset, local_now),
{
    match decode_payload(p.as_slice()) {
        Some(m) => {
            if m.timestamp > i128::MAX as u128 {
                return offset;
            }
            let estimate = match local_now.checked_add(offset) {
                Some(e) => e,
                None => {
                    return offset;
                },
            };
            let diff = match (m.timestamp as i128).checked_sub(estimate) {
                Some(d) => d,
                None => {
                    return offset;
                },
            };
            if diff == i128::MIN {
                return offset;
            }
            let half: i128 = if diff >= 0 {
                ((diff as u128) / 2) as i128
            } else {
                -(((-diff) as u128 / 2) as i128)
            };
            match offset.checked_add(half) {
                Some(_) => adjust_offset(offset, local_now, m.timestamp),
                None => offset,
            }
        },
        None => offset,
    }
}

/// One node's view of one peer connection: the peer's identifier (the key it
/// is registered under), the handler state, and the reassembly buffer.
pub struct PeerSession {
    pub peer_id: String,
    pub state: HandlerState,
    pub fbuf: FrameBuffer,
}

impl PeerSession {
    /// A fresh handler for a newly accepted or dialed connection.
    pub fn new(peer_id: String) -> (r: Self)
        ensures
            r.peer_id@ == peer_id@,
            r.state is Active,
            r.fbuf@ == Seq::<u8>::empty(),
    {
        PeerSession { peer_id, state: HandlerState::Active, fbuf: FrameBuffer::new() }
    }

    /// One step of the handler: close and deregister on end-of-stream or
    /// read error; on data, reassemble and apply every complete frame.
    /// Returns the offset after the step.
    pub fn on_event(
        &mut self,
        reg: &mut PeerRegistry,
        offset: i128,
        local_now: i128,
        ev: ReadEvent,
    ) -> (r: i128)
        requires
            old(self).state is Active,
        ensures
            final(self).peer_id@ == old(self).peer_id@,
            !(ev is Data) ==> final(self).state is Closed && final(reg)@ == old(reg)@.remove(
                old(self).peer_id@,
            ) && r == offset && final(self).fbuf@ == old(self).fbuf@,
            ev matches ReadEvent::Data(chunk) ==> final(self).state is Active && final(reg)@ == old(
                reg,
            )@ && final(self).fbuf@ == spec_drain(old(self).fbuf@ + chunk@, offset, local_now).0
                && r == spec_drain(old(self).fbuf@ + chunk@, offset, local_now).1,
    {
        match ev {
            ReadEvent::Eof => {
                reg.remove(&self.peer_id);
                self.state = HandlerState::Closed;
                offset
            },
            ReadEvent::ReadError => {
                reg.remove(&self.peer_id);
                self.state = HandlerState::Closed;
                offset
            },
            ReadEvent::Data(chunk) => {
                self.fbuf.push_chunk(chunk.as_slice());
                let ghost start = self.fbuf@;
                let ghost g_id = self.peer_id@;
                let ghost g_state = self.state;
                let ghost g_reg = reg@;
                let mut off: i128 = offset;
                loop
                    invariant_except_break
                        self.peer_id@ == g_id,
                        self.state == g_state,
                        reg@ == g_reg,
                        spec_drain(self.fbuf@, off, local_now) == spec_drain(
                            start,
                            offset,
                            local_now,
                        ),
                    ensures
                        self.peer_id@ == g_id,
                        self.state == g_state,
                        reg@ == g_reg,
                        !has_frame(self.fbuf@),
                        spec_drain(self.fbuf@, off, local_now) == spec_drain(
                            start,
                            offset,
                            local_now,
                        ),
                    decreases self.fbuf@.len(),
                {
                    let p = match self.fbuf.next_frame() {
                        Some(p) => p,
                        None => {
                            break ;
                        },
                    };
                    off = apply_payload(&p, off, local_now);
                }
                proof {
                    assert(spec_drain(self.fbuf@, off, local_now) == (self.fbuf@, off));
                }
                off
            },
        }
    }
}

/// The frame a node broadcasts on one scheduler tick: its identifier and its
/// adjusted wall clock, `local_now + offset`. Nothing is built when the
/// adjusted time is not representable as an unsigned timestamp or the
/// identifier overruns the length prefix.
pub fn build_broadcast(node_id: &String, local_now: i128, offset: i128) -> (r: Option<Vec<u8>>)
    ensures
        match r {
            Some(v) => 0 <= local_now + offset <= i128::MAX && payload_of(
                node_id@,
                (local_now + offset) as u128,
            ).len() <= u32::MAX && v@ == frame_of(
                payload_of(node_id@, (local_now + offset) as u128),
            ),
            None => local_now + offset < 0 || local_now + offset > i128::MAX || payload_of(
                node_id@,
                (local_now + offset) as u128,
            ).len() > u32::MAX,
        },
{
    let adjusted = match local_now.checked_add(offset) {
        Some(a) => a,
        None => {
            return None;
        },
    };
    if adjusted < 0 {
        return None;
    }
    let m = TimeMessage { node_id: node_id.clone(), timestamp: adjusted as u128 };
    encode_frame(&m)
}

} // verus!
