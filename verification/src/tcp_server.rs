//! Decisions of the client connection handler: how the receive buffer is
//! cut into frames, when a connection is dropped, and how the buffer is
//! resynchronized after malformed bytes.
use vstd::prelude::*;
use bytes::BytesMut;
use crate::buffer::{bytes_mut_contents, buf_advance, buf_as_slice, buf_len, buf_split_to};
use crate::error::ForwardError;
use crate::protocol::{ROUTER_MAGIC, KEEPALIVE_SEGMENT, RouterDecode, router_decode, try_decode_router, find_next_router_magic};
use crate::text::str_eq;

verus! {

/// A request frame taken off the receive buffer.
pub struct RequestFrame {
    pub frame: BytesMut,
    pub segment: String,
    pub clrid_offset: usize,
    pub original_clrid: u32,
    pub is_write: bool,
}

/// What the handler does next with its receive buffer.
pub enum FrameStep {
    /// The buffer holds no complete frame yet: wait for more bytes.
    NeedMore,
    /// The buffer holds an incomplete frame past the per-frame deadline: close.
    FrameTimeout,
    /// The buffer grew beyond its limit: close.
    BufferOverflow,
    /// The frame at the front is larger than the frame limit: close.
    FrameTooLarge,
    /// A keepalive frame was taken off the buffer; it gets no reply.
    Keepalive,
    /// A request frame was taken off the buffer.
    Request(RequestFrame),
    /// Malformed bytes were dropped up to the next router magic: go on.
    Resynced,
    /// Malformed bytes were dropped and no router magic follows: wait.
    ResyncPending,
}

/// Buffer contents after dropping malformed bytes, and whether a router
/// magic was found: the first byte is dropped, then everything before the
/// next magic; with no magic left, a remainder longer than 64 bytes is cut
/// to its last 8 bytes.
pub open spec fn resync_spec(b: Seq<u8>, found: bool, after: Seq<u8>) -> bool {
    let rest = b.skip(1);
    if found {
        exists|p: int|
            0 <= p < rest.len() && rest[p] == ROUTER_MAGIC && (forall|i: int| 0 <= i < p ==> rest[i] != ROUTER_MAGIC)
                && after == rest.skip(p)
    } else {
        &&& forall|i: int| 0 <= i < rest.len() ==> rest[i] != ROUTER_MAGIC
        &&& after == (if rest.len() > 64 { rest.skip(rest.len() - 8) } else { rest })
    }
}

/// The step taken on buffer contents `b` and the contents `after` left behind.
pub open spec fn frame_step_spec(
    b: Seq<u8>,
    max_buffer: usize,
    max_frame: usize,
    frame_timed_out: bool,
    step: FrameStep,
    after: Seq<u8>,
) -> bool {
    if b.len() > max_buffer {
        step is BufferOverflow && after == b
    } else {
        match router_decode(b) {
            RouterDecode::Incomplete => after == b && if frame_timed_out {
                step is FrameTimeout
            } else {
                step is NeedMore
            },
            RouterDecode::Malformed(_) => {
                &&& (step is Resynced || step is ResyncPending)
                &&& resync_spec(b, step is Resynced, after)
            },
            RouterDecode::Complete { segment, is_write, clrid_offset, original_clrid, frame_len } => {
                if frame_len > max_frame {
                    step is FrameTooLarge && after == b
                } else {
                    &&& after == b.skip(frame_len)
                    &&& if segment == KEEPALIVE_SEGMENT@ {
                        step is Keepalive
                    } else {
                        &&& step matches FrameStep::Request(r)
                        &&& bytes_mut_contents(r.frame) == b.take(frame_len)
                        &&& r.segment@ == segment
                        &&& r.clrid_offset == clrid_offset
                        &&& r.original_clrid == original_clrid
                        &&& r.is_write == is_write
                    }
                }
            },
        }
    }
}

/// Drops malformed bytes at the front of `buf` (see `resync_spec`).
fn resync(buf: &mut BytesMut) -> (found: bool)
    requires
        bytes_mut_contents(*old(buf)).len() >= 1,
    ensures
        resync_spec(bytes_mut_contents(*old(buf)), found, bytes_mut_contents(*final(buf))),
{
    let ghost b = bytes_mut_contents(*buf);
    buf_advance(buf, 1);
    let pos = find_next_router_magic(buf_as_slice(buf), 0);
    match pos {
        Some(p) => {
            if p > 0 {
                buf_advance(buf, p);
            } else {
                assert(b.skip(1).skip(0) =~= b.skip(1));
            }
            assert(b.skip(1)[p as int] == ROUTER_MAGIC);
            true
        },
        None => {
            let len = buf_len(buf);
            if len > 64 {
                let keep: usize = 8;
                buf_advance(buf, len - keep);
            }
            false
        },
    }
}

/// Takes the next step on the receive buffer: enforces the buffer and frame
/// limits, takes complete frames off the front, and resynchronizes after
/// malformed bytes. `frame_timed_out` tells whether the per-frame deadline
/// has passed since the last complete frame.
pub fn next_frame_step(buf: &mut BytesMut, max_buffer: usize, max_frame: usize, frame_timed_out: bool) -> (step: FrameStep)
    ensures
        frame_step_spec(
            bytes_mut_contents(*old(buf)),
            max_buffer,
            max_frame,
            frame_timed_out,
            step,
            bytes_mut_contents(*final(buf)),
        ),
{
    let ghost b = bytes_mut_contents(*buf);
    if buf_len(buf) > max_buffer {
        return FrameStep::BufferOverflow;
    }
    let decoded = try_decode_router(buf_as_slice(buf));
    match decoded {
        Ok(None) => {
            if frame_timed_out {
                FrameStep::FrameTimeout
            } else {
                FrameStep::NeedMore
            }
        },
        Ok(Some(frame)) => {
            if frame.frame_len > max_frame {
                return FrameStep::FrameTooLarge;
            }
            let frame_len = frame.frame_len;
            let clrid_offset = frame.clrid_offset;
            let original_clrid = frame.original_clrid;
            let is_write = frame.is_write;
            let keepalive = str_eq(frame.segment, KEEPALIVE_SEGMENT);
            let segment = String::from_str(frame.segment);
            let bytes = buf_split_to(buf, frame_len);
            if keepalive {
                FrameStep::Keepalive
            } else {
                FrameStep::Request(RequestFrame { frame: bytes, segment, clrid_offset, original_clrid, is_write })
            }
        },
        Err(_) => {
            if resync(buf) {
                FrameStep::Resynced
            } else {
                FrameStep::ResyncPending
            }
        },
    }
}

/// Error code sent back to the client for a forwarding error:
/// unknown segment 1, network error 2, timeout 3, internal error 4.
pub fn forward_error_code(e: &ForwardError) -> (code: u8)
    ensures
        code == match e {
            ForwardError::UnknownSegment(_) => 1u8,
            ForwardError::NetworkError => 2u8,
            ForwardError::Timeout => 3u8,
            ForwardError::Internal(_) => 4u8,
        },
{
    match e {
        ForwardError::UnknownSegment(_) => 1,
        ForwardError::NetworkError => 2,
        ForwardError::Timeout => 3,
        ForwardError::Internal(_) => 4,
    }
}

/// A complete frame within the limits is always taken off the buffer, as a
/// request or a keepalive, whether or not the per-frame deadline has passed:
/// the deadline only closes a connection whose buffer holds an incomplete
/// frame.
pub proof fn lemma_complete_frame_taken(
    b: Seq<u8>,
    max_buffer: usize,
    max_frame: usize,
    frame_timed_out: bool,
    step: FrameStep,
    after: Seq<u8>,
)
    requires
        frame_step_spec(b, max_buffer, max_frame, frame_timed_out, step, after),
        b.len() <= max_buffer,
        router_decode(b) is Complete,
        router_decode(b)->frame_len <= max_frame,
    ensures
        step is Request || step is Keepalive,
        after == b.skip(router_decode(b)->frame_len),
{
}

/// A frame timeout is reported only past the deadline, for a buffer within
/// its limit that holds an incomplete frame, and it leaves the buffer as it
/// was.
pub proof fn lemma_frame_timeout_only_incomplete(
    b: Seq<u8>,
    max_buffer: usize,
    max_frame: usize,
    frame_timed_out: bool,
    step: FrameStep,
    after: Seq<u8>,
)
    requires
        frame_step_spec(b, max_buffer, max_frame, frame_timed_out, step, after),
        step is FrameTimeout,
    ensures
        frame_timed_out,
        b.len() <= max_buffer,
        router_decode(b) is Incomplete,
        after == b,
{
}

/// The deadline flag changes nothing unless the buffer holds an incomplete
/// frame: a step taken past the deadline is also a step allowed before it.
pub proof fn lemma_deadline_only_for_incomplete(
    b: Seq<u8>,
    max_buffer: usize,
    max_frame: usize,
    step: FrameStep,
    after: Seq<u8>,
)
    requires
        frame_step_spec(b, max_buffer, max_frame, true, step, after),
        b.len() > max_buffer || !(router_decode(b) is Incomplete),
    ensures
        frame_step_spec(b, max_buffer, max_frame, false, step, after),
{
}

/// Every step that goes on processing consumes bytes, so the handler's
/// processing loop ends; a request or keepalive frame together with what
/// is left is exactly the buffer before the step.
pub proof fn lemma_frame_step_progress(
    b: Seq<u8>,
    max_buffer: usize,
    max_frame: usize,
    frame_timed_out: bool,
    step: FrameStep,
    after: Seq<u8>,
)
    requires
        frame_step_spec(b, max_buffer, max_frame, frame_timed_out, step, after),
    ensures
        (step is Keepalive || step is Request || step is Resynced) ==> after.len() < b.len(),
        (step is NeedMore || step is FrameTimeout || step is BufferOverflow || step is FrameTooLarge) ==> after == b,
        step matches FrameStep::Request(r) ==> bytes_mut_contents(r.frame) + after == b,
        step is Resynced ==> after.len() > 0 && after[0] == ROUTER_MAGIC,
{
    if b.len() <= max_buffer {
        match router_decode(b) {
            RouterDecode::Complete { frame_len, .. } => {
                if frame_len <= max_frame {
                    assert(b.take(frame_len) + b.skip(frame_len) =~= b);
                }
            },
            RouterDecode::Malformed(_) => {
                if step is Resynced {
                    let rest = b.skip(1);
                    let p = choose|p: int| 0 <= p < rest.len() && rest[p] == ROUTER_MAGIC && (forall|i: int| 0 <= i < p ==> rest[i] != ROUTER_MAGIC) && after == rest.skip(p);
                    assert(after[0] == rest[p]);
                }
            },
            _ => {},
        }
    }
}

} // verus!
