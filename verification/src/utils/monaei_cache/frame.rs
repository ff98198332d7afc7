//! Frames: what travels on the connection, in both directions.
//!
//! A frame is the request identifier in eight little-endian bytes, the
//! payload's length in eight little-endian bytes, and the payload.

use crate::utils::le::{
    append_bytes, le_bytes, le_value, lemma_le_bytes_len, lemma_le_value_of_bytes,
    lemma_pow256_values, push_u64, read_u64,
};
use vstd::prelude::*;

verus! {

/// The number of bytes before a frame's payload.
pub const HEADER_LEN: usize = 16;

/// The frame that carries `payload` under the identifier `id`.
pub open spec fn frame_of(id: nat, payload: Seq<u8>) -> Seq<u8> {
    le_bytes(id, 8) + le_bytes(payload.len(), 8) + payload
}

/// The identifier that a header names.
pub open spec fn header_id(header: Seq<u8>) -> nat {
    le_value(header.subrange(0, 8))
}

/// The payload length that a header names.
pub open spec fn header_length(header: Seq<u8>) -> nat {
    le_value(header.subrange(8, 16))
}

/// What a frame's header says: whose answer follows, and in how many bytes.
#[derive(Debug, Clone, Copy, PartialEq, Eq, Structural)]
pub struct FrameHeader {
    pub id: usize,
    pub length: usize,
}

/// The frame that carries `payload` under the identifier `id`.
pub fn build_frame(id: usize, payload: &[u8]) -> (frame: Vec<u8>)
    ensures
        frame@ == frame_of(id as nat, payload@),
{
    let mut frame: Vec<u8> = Vec::new();
    push_u64(&mut frame, id as u64);
    push_u64(&mut frame, payload.len() as u64);
    append_bytes(&mut frame, payload);
    proof {
        assert(frame@ =~= frame_of(id as nat, payload@));
    }
    frame
}

/// Reads the sixteen bytes of a header. Nothing comes back where the
/// identifier or the length does not fit this machine's `usize`.
pub fn parse_header(header: &[u8]) -> (parsed: Option<FrameHeader>)
    requires
        header@.len() == HEADER_LEN,
    ensures
        match parsed {
            Some(h) => h.id == header_id(header@) && h.length == header_length(header@),
            None => header_id(header@) > usize::MAX || header_length(header@) > usize::MAX,
        },
{
    let id: u64 = read_u64(header, 0);
    let length: u64 = read_u64(header, 8);
    if id > usize::MAX as u64 || length > usize::MAX as u64 {
        None
    } else {
        Some(FrameHeader { id: id as usize, length: length as usize })
    }
}

/// Frame round trip: the header of a built frame names the identifier and
/// the payload's length, and the payload follows the header unchanged.
pub proof fn lemma_frame_round_trip(id: nat, payload: Seq<u8>)
    requires
        id <= u64::MAX,
        payload.len() <= u64::MAX,
    ensures
        frame_of(id, payload).len() == HEADER_LEN + payload.len(),
        header_id(frame_of(id, payload).take(HEADER_LEN as int)) == id,
        header_length(frame_of(id, payload).take(HEADER_LEN as int)) == payload.len(),
        frame_of(id, payload).skip(HEADER_LEN as int) == payload,
{
    let frame = frame_of(id, payload);
    let header = frame.take(HEADER_LEN as int);
    lemma_le_bytes_len(id, 8);
    lemma_le_bytes_len(payload.len(), 8);
    lemma_pow256_values();
    lemma_le_value_of_bytes(id, 8);
    lemma_le_value_of_bytes(payload.len(), 8);
    assert(header.subrange(0, 8) =~= le_bytes(id, 8));
    assert(header.subrange(8, 16) =~= le_bytes(payload.len(), 8));
    assert(frame.skip(HEADER_LEN as int) =~= payload);
}

} // verus!
