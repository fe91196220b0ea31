//! Reading the responses of a hop connection: how the receive buffer is cut
//! into shard response frames.
use vstd::prelude::*;
use bytes::BytesMut;
use crate::buffer::{bytes_mut_contents, buf_advance, buf_as_slice, buf_len, buf_split_to};
use crate::protocol::{SHARD_MAGIC, le_u32, read_u32_le, error_response_bytes, u32_le_bytes, lemma_le_u32_roundtrip};

verus! {

/// Length of a shard response header: magic, client request id, payload length.
pub const RESPONSE_HEADER_LEN: usize = 9;

/// What the reader does next with its receive buffer.
pub enum ResponseStep {
    /// No complete response yet: read more bytes.
    NeedMore,
    /// The first byte is not the response magic and was dropped.
    SkippedByte,
    /// A complete response frame was taken off the buffer.
    Response { clrid: u32, frame: BytesMut },
}

/// Total length of the response frame whose header starts `b`.
pub open spec fn response_frame_len(b: Seq<u8>) -> int {
    9 + le_u32(b, 5) as int
}

/// Takes the next step on a hop connection's receive buffer.
pub fn next_response(buf: &mut BytesMut) -> (step: ResponseStep)
    ensures
        ({
            let b = bytes_mut_contents(*old(buf));
            let after = bytes_mut_contents(*final(buf));
            if b.len() < 9 {
                step is NeedMore && after == b
            } else if b[0] != SHARD_MAGIC {
                step is SkippedByte && after == b.skip(1)
            } else if b.len() < response_frame_len(b) {
                step is NeedMore && after == b
            } else {
                &&& step matches ResponseStep::Response { clrid, frame }
                &&& clrid == le_u32(b, 1)
                &&& bytes_mut_contents(frame) == b.take(response_frame_len(b))
                &&& after == b.skip(response_frame_len(b))
            }
        }),
{
    let len = buf_len(buf);
    if len < RESPONSE_HEADER_LEN {
        return ResponseStep::NeedMore;
    }
    let s = buf_as_slice(buf);
    if s[0] != SHARD_MAGIC {
        buf_advance(buf, 1);
        return ResponseStep::SkippedByte;
    }
    let clrid = read_u32_le(s, 1);
    let payload_len = read_u32_le(s, 5);
    if len - RESPONSE_HEADER_LEN < payload_len as usize {
        return ResponseStep::NeedMore;
    }
    let frame_len = RESPONSE_HEADER_LEN + payload_len as usize;
    let frame = buf_split_to(buf, frame_len);
    ResponseStep::Response { clrid, frame }
}

/// The error response for a request is read back as one whole response
/// frame carrying the request's client id.
pub proof fn lemma_error_response_reads_back(clrid: u32, code: u8)
    ensures
        error_response_bytes(clrid, code).len() == 31,
        error_response_bytes(clrid, code)[0] == SHARD_MAGIC,
        le_u32(error_response_bytes(clrid, code), 1) == clrid,
        response_frame_len(error_response_bytes(clrid, code)) == error_response_bytes(clrid, code).len(),
{
    let b = error_response_bytes(clrid, code);
    lemma_le_u32_roundtrip(clrid);
    lemma_le_u32_roundtrip(22);
    assert(b.subrange(1, 5) =~= u32_le_bytes(clrid));
    assert(b.subrange(5, 9) =~= u32_le_bytes(22));
    assert(le_u32(b, 1) == le_u32(u32_le_bytes(clrid), 0));
    assert(le_u32(b, 5) == le_u32(u32_le_bytes(22), 0));
}

} // verus!
