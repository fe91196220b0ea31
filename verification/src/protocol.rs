//! The router's wire format: router frames sent by clients, the shard
//! frames inside them, keepalive frames and error responses.
use vstd::prelude::*;
use vstd::utf8::*;
use crate::error::RZError;

verus! {

pub const ROUTER_MAGIC: u8 = 0xFE;
pub const SHARD_MAGIC: u8 = 0xFF;

/// Largest `total_len` a router frame header may announce (16 MiB).
pub const MAX_ROUTER_TOTAL_LEN: u32 = 16777216;

/// The 32-bit little-endian integer stored at `b[i..i+4]`.
pub open spec fn le_u32(b: Seq<u8>, i: int) -> u32 {
    (b[i] as int + b[i + 1] as int * 256 + b[i + 2] as int * 65536 + b[i + 3] as int * 16777216) as u32
}

/// The four little-endian bytes of `x`.
pub open spec fn u32_le_bytes(x: u32) -> Seq<u8> {
    seq![(x % 256) as u8, ((x / 256) % 256) as u8, ((x / 65536) % 256) as u8, ((x / 16777216) % 256) as u8]
}

/// Reading back the four little-endian bytes of `x` gives `x`.
pub proof fn lemma_le_u32_roundtrip(x: u32)
    ensures
        u32_le_bytes(x).len() == 4,
        le_u32(u32_le_bytes(x), 0) == x,
{
    let b = u32_le_bytes(x);
    assert(b[0] as int == x % 256);
    assert(b[1] as int == (x / 256) % 256);
    assert(b[2] as int == (x / 65536) % 256);
    assert(b[3] as int == (x / 16777216) % 256);
    assert((x % 256) + ((x / 256) % 256) * 256 + ((x / 65536) % 256) * 65536 + ((x / 16777216) % 256) * 16777216 == x) by (nonlinear_arith)
        requires 0 <= x < 0x1_0000_0000;
}

/// Reads the little-endian `u32` at `buf[i..i+4]`.
pub fn read_u32_le(buf: &[u8], i: usize) -> (r: u32)
    requires
        i + 4 <= buf@.len(),
    ensures
        r == le_u32(buf@, i as int),
{
    let b0 = buf[i] as u32;
    let b1 = buf[i + 1] as u32;
    let b2 = buf[i + 2] as u32;
    let b3 = buf[i + 3] as u32;
    b0 + b1 * 256 + b2 * 65536 + b3 * 16777216
}

/// Appends the four little-endian bytes of `x`.
pub fn push_u32_le(out: &mut Vec<u8>, x: u32)
    ensures
        final(out)@ == old(out)@ + u32_le_bytes(x),
{
    out.push((x % 256) as u8);
    out.push(((x / 256) % 256) as u8);
    out.push(((x / 65536) % 256) as u8);
    out.push(((x / 16777216) % 256) as u8);
    assert(out@ =~= old(out)@ + u32_le_bytes(x));
}


/// One decoded router frame at the front of a receive buffer.
pub struct RouterFrame<'a> {
    pub segment: &'a str,
    pub is_write: bool,
    /// Absolute offset of the 4-byte client request id inside the buffer (shard header).
    pub clrid_offset: usize,
    pub original_clrid: u32,
    /// Total length of this router frame in the buffer.
    pub frame_len: usize,
}

/// What the front of a receive buffer holds, as the router frame layout reads it:
/// magic `0xFE`, `total_len` (u32 LE), `seg_len` (u8), segment (UTF-8),
/// `is_write` (u8), then a shard frame starting with magic `0xFF` and the
/// client request id (u32 LE).
pub enum RouterDecode {
    /// More bytes are needed.
    Incomplete,
    /// Structural error, with its message.
    Malformed(Seq<char>),
    Complete { segment: Seq<char>, is_write: bool, clrid_offset: int, original_clrid: u32, frame_len: int },
}

pub open spec fn router_decode(b: Seq<u8>) -> RouterDecode {
    if b.len() < 5 {
        RouterDecode::Incomplete
    } else if b[0] != ROUTER_MAGIC {
        RouterDecode::Malformed("bad router magic"@)
    } else {
        let total = le_u32(b, 1) as int;
        let frame_len = 5 + total;
        if total > MAX_ROUTER_TOTAL_LEN {
            RouterDecode::Malformed("frame too large"@)
        } else if b.len() < frame_len {
            RouterDecode::Incomplete
        } else if total < 2 {
            RouterDecode::Malformed("router total_len too small"@)
        } else {
            let is_write_pos = 6 + b[5] as int;
            let seg = b.subrange(6, is_write_pos);
            let shard_start = is_write_pos + 1;
            if is_write_pos >= frame_len {
                RouterDecode::Malformed("segment length out of range"@)
            } else if !valid_utf8(seg) {
                RouterDecode::Malformed("segment not utf-8"@)
            } else if shard_start + 9 > frame_len || b[shard_start] != SHARD_MAGIC {
                RouterDecode::Malformed("missing shard magic"@)
            } else {
                RouterDecode::Complete {
                    segment: decode_utf8(seg),
                    is_write: b[is_write_pos] == 1,
                    clrid_offset: shard_start + 1,
                    original_clrid: le_u32(b, shard_start + 1),
                    frame_len,
                }
            }
        }
    }
}

/// The bytes of a router frame for the segment bytes `seg`, the is_write
/// byte `w`, and the shard frame `0xFF`, `clrid` (u32 LE), `rest`.
pub open spec fn router_frame_bytes(seg: Seq<u8>, w: u8, clrid: u32, rest: Seq<u8>) -> Seq<u8> {
    seq![ROUTER_MAGIC] + u32_le_bytes((7 + seg.len() + rest.len()) as u32) + seq![seg.len() as u8] + seg
        + seq![w, SHARD_MAGIC] + u32_le_bytes(clrid) + rest
}

/// A router frame built from a segment of up to 255 bytes of UTF-8 decodes,
/// whatever follows it in the buffer, to that whole segment, its is_write
/// flag and its client request id, with the frame's exact length.
pub proof fn lemma_router_frame_decodes(seg: Seq<u8>, w: u8, clrid: u32, rest: Seq<u8>, tail: Seq<u8>)
    requires
        seg.len() <= 255,
        valid_utf8(seg),
        rest.len() >= 4,
        7 + seg.len() + rest.len() <= MAX_ROUTER_TOTAL_LEN,
    ensures
        router_decode(router_frame_bytes(seg, w, clrid, rest) + tail) == (RouterDecode::Complete {
            segment: decode_utf8(seg),
            is_write: w == 1,
            clrid_offset: 8 + seg.len() as int,
            original_clrid: clrid,
            frame_len: 12 + seg.len() as int + rest.len() as int,
        }),
{
    let total: u32 = (7 + seg.len() + rest.len()) as u32;
    let l = seg.len() as int;
    let f = router_frame_bytes(seg, w, clrid, rest);
    let b = f + tail;
    lemma_le_u32_roundtrip(total);
    lemma_le_u32_roundtrip(clrid);
    assert(f.len() == 12 + l + rest.len());
    assert(b[0] == ROUTER_MAGIC);
    assert(b.subrange(1, 5) =~= u32_le_bytes(total));
    assert(le_u32(b, 1) == le_u32(u32_le_bytes(total), 0));
    assert(b[5] == seg.len() as u8);
    assert(b.subrange(6, 6 + l) =~= seg);
    assert(b[6 + l] == w);
    assert(b[7 + l] == SHARD_MAGIC);
    assert(b.subrange(8 + l, 12 + l) =~= u32_le_bytes(clrid));
    assert(le_u32(b, 8 + l) == le_u32(u32_le_bytes(clrid), 0));
}

/// A frame for a segment of up to 255 ASCII characters gives back exactly
/// that segment's text.
pub proof fn lemma_ascii_segment_roundtrip(seg: Seq<u8>, w: u8, clrid: u32, rest: Seq<u8>, tail: Seq<u8>)
    requires
        seg.len() <= 255,
        is_ascii_bytes(seg),
        rest.len() >= 4,
        7 + seg.len() + rest.len() <= MAX_ROUTER_TOTAL_LEN,
    ensures
        router_decode(router_frame_bytes(seg, w, clrid, rest) + tail) matches RouterDecode::Complete { segment, .. }
            && segment == ascii_text(seg) && segment.len() == seg.len(),
{
    lemma_ascii_utf8(seg);
    lemma_router_frame_decodes(seg, w, clrid, rest, tail);
}

/// `r` is the value that decoding returns for the outcome `d`.
pub open spec fn decode_result_matches(r: Result<Option<RouterFrame>, RZError>, d: RouterDecode) -> bool {
    match d {
        RouterDecode::Incomplete => r matches Ok(None),
        RouterDecode::Malformed(msg) => r matches Err(RZError::ParseError(m)) && m@ == msg,
        RouterDecode::Complete { segment, is_write, clrid_offset, original_clrid, frame_len } => {
            &&& r matches Ok(Some(f))
            &&& r->Ok_0->Some_0.segment@ == segment
            &&& r->Ok_0->Some_0.is_write == is_write
            &&& r->Ok_0->Some_0.clrid_offset == clrid_offset
            &&& r->Ok_0->Some_0.original_clrid == original_clrid
            &&& r->Ok_0->Some_0.frame_len == frame_len
        },
    }
}

/// Decodes `v` as UTF-8 with `std::str::from_utf8`.
/// Trusted: `from_utf8` succeeds exactly on valid UTF-8, and the text it
/// returns is the decoding of the bytes.
#[verifier::external_body]
fn str_from_utf8(v: &[u8]) -> (res: Option<&str>)
    ensures
        res is Some <==> valid_utf8(v@),
        res matches Some(s) ==> s@ == decode_utf8(v@),
{
    std::str::from_utf8(v).ok()
}

fn parse_error(msg: &str) -> (e: RZError)
    ensures
        e matches RZError::ParseError(m) && m@ == msg@,
{
    RZError::ParseError(String::from_str(msg))
}

/// Tries to decode one complete router frame at the front of `buf`.
/// `Ok(None)` means more bytes are needed; `Err` is a structural error after
/// which the caller resynchronizes.
pub fn try_decode_router<'a>(buf: &'a [u8]) -> (r: Result<Option<RouterFrame<'a>>, RZError>)
    ensures
        decode_result_matches(r, router_decode(buf@)),
{
    if buf.len() < 5 {
        return Ok(None);
    }
    if buf[0] != ROUTER_MAGIC {
        return Err(parse_error("bad router magic"));
    }
    let total_len = read_u32_le(buf, 1);
    if total_len > MAX_ROUTER_TOTAL_LEN {
        return Err(parse_error("frame too large"));
    }
    let frame_len = 5 + total_len as usize;
    if buf.len() < frame_len {
        return Ok(None);
    }
    if total_len < 2 {
        return Err(parse_error("router total_len too small"));
    }
    let seg_len = buf[5] as usize;
    let seg_start: usize = 6;
    let is_write_pos = seg_start + seg_len;
    if is_write_pos >= frame_len {
        return Err(parse_error("segment length out of range"));
    }
    let seg_bytes = vstd::slice::slice_subrange(buf, seg_start, is_write_pos);
    let segment = match str_from_utf8(seg_bytes) {
        Some(s) => s,
        None => return Err(parse_error("segment not utf-8")),
    };
    let is_write = buf[is_write_pos] == 1;
    let shard_start = is_write_pos + 1;
    if shard_start + 9 > frame_len || buf[shard_start] != SHARD_MAGIC {
        return Err(parse_error("missing shard magic"));
    }
    let original_clrid = read_u32_le(buf, shard_start + 1);
    Ok(Some(RouterFrame { segment, is_write, clrid_offset: shard_start + 1, original_clrid, frame_len }))
}


/// Special segment of application-level keepalive frames.
pub const KEEPALIVE_SEGMENT: &'static str = "__keepalive__";

/// The bytes of `"__keepalive__"`.
pub open spec fn keepalive_segment_bytes() -> Seq<u8> {
    seq![95u8, 95u8, 107u8, 101u8, 101u8, 112u8, 97u8, 108u8, 105u8, 118u8, 101u8, 95u8, 95u8]
}

/// Characters of an ASCII byte string.
pub open spec fn ascii_text(b: Seq<u8>) -> Seq<char> {
    b.map_values(|x: u8| (x as u32) as char)
}

pub open spec fn is_ascii_bytes(b: Seq<u8>) -> bool {
    forall|i: int| 0 <= i < b.len() ==> #[trigger] b[i] < 128
}

/// ASCII bytes are valid UTF-8 and decode to the same characters.
pub proof fn lemma_ascii_utf8(b: Seq<u8>)
    requires
        is_ascii_bytes(b),
    ensures
        valid_utf8(b),
        decode_utf8(b) == ascii_text(b),
    decreases b.len(),
{
    if b.len() > 0 {
        let x = b[0];
        assert(x < 128);
        assert(x & 0x7f == x) by (bit_vector)
            requires x < 128;
        let rest = b.subrange(1, b.len() as int);
        assert(pop_first_scalar(b) =~= rest);
        assert(is_ascii_bytes(rest)) by {
            assert forall|i: int| 0 <= i < rest.len() implies #[trigger] rest[i] < 128 by {
                assert(rest[i] == b[i + 1]);
            }
        }
        lemma_ascii_utf8(rest);
        assert(ascii_text(b) =~= seq![(x as u32) as char] + ascii_text(rest));
    } else {
        assert(ascii_text(b) =~= seq![]);
    }
}

/// The text of `KEEPALIVE_SEGMENT`.
pub proof fn lemma_keepalive_segment_text()
    ensures
        KEEPALIVE_SEGMENT@ == ascii_text(keepalive_segment_bytes()),
{
    reveal_strlit("__keepalive__");
    assert(KEEPALIVE_SEGMENT@ =~= ascii_text(keepalive_segment_bytes()));
}

/// `total_len` announced by a keepalive frame: seg_len byte, segment, is_write byte, 9-byte shard header.
pub open spec fn keepalive_total_len() -> u32 {
    24
}

/// The bytes of the keepalive frame for `clrid`.
pub open spec fn keepalive_frame_bytes(clrid: u32) -> Seq<u8> {
    seq![ROUTER_MAGIC] + u32_le_bytes(keepalive_total_len()) + seq![13u8] + keepalive_segment_bytes()
        + seq![0u8, SHARD_MAGIC] + u32_le_bytes(clrid) + seq![0u8, 0u8, 0u8, 0u8]
}

fn push_slice(out: &mut Vec<u8>, bytes: &[u8])
    ensures
        final(out)@ == old(out)@ + bytes@,
{
    let mut i: usize = 0;
    while i < bytes.len()
        invariant
            i <= bytes@.len(),
            out@ == old(out)@ + bytes@.subrange(0, i as int),
        decreases bytes@.len() - i,
    {
        out.push(bytes[i]);
        i = i + 1;
        assert(out@ =~= old(out)@ + bytes@.subrange(0, i as int));
    }
    assert(bytes@.subrange(0, bytes@.len() as int) =~= bytes@);
}

/// Builds an application-level keepalive (ping) frame: segment `__keepalive__`,
/// `is_write = 0`, and a shard header with `clrid` and four zero bytes.
pub fn build_keepalive_frame(clrid: u32) -> (frame: Vec<u8>)
    ensures
        frame@ == keepalive_frame_bytes(clrid),
{
    let segment: [u8; 13] = [95, 95, 107, 101, 101, 112, 97, 108, 105, 118, 101, 95, 95];
    let mut buf: Vec<u8> = Vec::with_capacity(29);
    buf.push(ROUTER_MAGIC);
    push_u32_le(&mut buf, 24);
    buf.push(13);
    push_slice(&mut buf, &segment);
    buf.push(0);
    buf.push(SHARD_MAGIC);
    push_u32_le(&mut buf, clrid);
    push_slice(&mut buf, &[0u8, 0u8, 0u8, 0u8]);
    assert(segment@ =~= keepalive_segment_bytes());
    assert(buf@ =~= keepalive_frame_bytes(clrid));
    buf
}

/// A keepalive frame decodes as one complete, read-only router frame for the
/// keepalive segment, carrying the client request id it was built with.
pub proof fn lemma_keepalive_frame_decodes(clrid: u32)
    ensures
        router_decode(keepalive_frame_bytes(clrid)) == (RouterDecode::Complete {
            segment: KEEPALIVE_SEGMENT@,
            is_write: false,
            clrid_offset: 21,
            original_clrid: clrid,
            frame_len: 29,
        }),
{
    let b = keepalive_frame_bytes(clrid);
    lemma_le_u32_roundtrip(24);
    lemma_le_u32_roundtrip(clrid);
    assert(b.len() == 29);
    assert(b.subrange(1, 5) =~= u32_le_bytes(24));
    assert(le_u32(b, 1) == le_u32(u32_le_bytes(24), 0));
    assert(b.subrange(21, 25) =~= u32_le_bytes(clrid));
    assert(le_u32(b, 21) == le_u32(u32_le_bytes(clrid), 0));
    assert(b.subrange(6, 19) =~= keepalive_segment_bytes());
    assert(is_ascii_bytes(keepalive_segment_bytes()));
    lemma_ascii_utf8(keepalive_segment_bytes());
    lemma_keepalive_segment_text();
    assert(b[5] == 13);
    assert(b[19] == 0);
    assert(b[20] == SHARD_MAGIC);
}

/// Bytes of the fixed part of an error response payload: status "ERROR",
/// one field (id 1, type 1) whose length is 4 bytes of message length plus message.
pub open spec fn error_payload_header() -> Seq<u8> {
    seq![5u8, 69u8, 82u8, 82u8, 79u8, 82u8, 1u8, 0u8, 1u8, 0u8, 1u8, 4u8, 0u8, 0u8, 0u8]
}

/// Message of an error code: 1 → "404", 2 → "503", 3 → "408", other → "500".
pub open spec fn error_message(code: u8) -> Seq<u8> {
    if code == 1 {
        seq![52u8, 48u8, 52u8]
    } else if code == 2 {
        seq![53u8, 48u8, 51u8]
    } else if code == 3 {
        seq![52u8, 48u8, 56u8]
    } else {
        seq![53u8, 48u8, 48u8]
    }
}

/// The shard-level error response frame for `clrid` and `code`: magic `0xFF`,
/// the client request id, the payload length (22), then the payload.
pub open spec fn error_response_bytes(clrid: u32, code: u8) -> Seq<u8> {
    seq![SHARD_MAGIC] + u32_le_bytes(clrid) + u32_le_bytes(22) + error_payload_header() + u32_le_bytes(3)
        + error_message(code)
}

/// Builds the constant error response frame, only the client request id and
/// the message varying.
///
/// Error codes: 1 = unknown segment, 2 = network error, 3 = timeout, 4 = internal error.
pub fn build_error_response(clrid: u32, error_code: u8) -> (frame: Vec<u8>)
    ensures
        frame@ == error_response_bytes(clrid, error_code),
{
    let header: [u8; 15] = [5, 69, 82, 82, 79, 82, 1, 0, 1, 0, 1, 4, 0, 0, 0];
    let msg: [u8; 3] = if error_code == 1 {
        [52, 48, 52]
    } else if error_code == 2 {
        [53, 48, 51]
    } else if error_code == 3 {
        [52, 48, 56]
    } else {
        [53, 48, 48]
    };
    let mut buf: Vec<u8> = Vec::with_capacity(31);
    buf.push(SHARD_MAGIC);
    push_u32_le(&mut buf, clrid);
    push_u32_le(&mut buf, 22);
    push_slice(&mut buf, &header);
    push_u32_le(&mut buf, 3);
    push_slice(&mut buf, &msg);
    assert(header@ =~= error_payload_header());
    assert(msg@ =~= error_message(error_code));
    assert(buf@ =~= error_response_bytes(clrid, error_code));
    buf
}

/// Finds the next `ROUTER_MAGIC` at or after `from`.
pub fn find_next_router_magic(buf: &[u8], from: usize) -> (r: Option<usize>)
    requires
        from <= buf@.len(),
    ensures
        match r {
            Some(p) => {
                &&& from <= p < buf@.len()
                &&& buf@[p as int] == ROUTER_MAGIC
                &&& forall|i: int| from <= i < p ==> buf@[i] != ROUTER_MAGIC
            },
            None => forall|i: int| from <= i < buf@.len() ==> buf@[i] != ROUTER_MAGIC,
        },
{
    let mut i: usize = from;
    while i < buf.len()
        invariant
            from <= i <= buf@.len(),
            forall|j: int| from <= j < i ==> buf@[j] != ROUTER_MAGIC,
        decreases buf@.len() - i,
    {
        if buf[i] == ROUTER_MAGIC {
            return Some(i);
        }
        i = i + 1;
    }
    None
}

} // verus!
