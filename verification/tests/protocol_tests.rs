use rzrouter::error::RZError;
use rzrouter::protocol::{
    build_error_response, build_keepalive_frame, find_next_router_magic, read_u32_le, try_decode_router,
    KEEPALIVE_SEGMENT, ROUTER_MAGIC, SHARD_MAGIC,
};

fn frame(segment: &str, is_write: bool, clrid: u32, payload: &[u8]) -> Vec<u8> {
    let shard_len = payload.len() as u32;
    let total = 1 + segment.len() as u32 + 1 + 9 + shard_len;
    let mut out = vec![ROUTER_MAGIC];
    out.extend_from_slice(&total.to_le_bytes());
    out.push(segment.len() as u8);
    out.extend_from_slice(segment.as_bytes());
    out.push(if is_write { 1 } else { 0 });
    out.push(SHARD_MAGIC);
    out.extend_from_slice(&clrid.to_le_bytes());
    out.extend_from_slice(&shard_len.to_le_bytes());
    out.extend_from_slice(payload);
    out
}

fn parse_message(r: Result<Option<rzrouter::protocol::RouterFrame<'_>>, RZError>) -> String {
    match r {
        Err(RZError::ParseError(m)) => m,
        _ => panic!("expected a parse error"),
    }
}

#[test]
fn decode_complete_frame() {
    let f = frame("segment_1", true, 0xAABBCCDD, b"hello");
    let d = try_decode_router(&f).unwrap().unwrap();
    assert_eq!(d.segment, "segment_1");
    assert!(d.is_write);
    assert_eq!(d.clrid_offset, 6 + 9 + 1 + 1);
    assert_eq!(d.original_clrid, 0xAABBCCDD);
    assert_eq!(d.frame_len, f.len());
}

#[test]
fn decode_needs_more_bytes() {
    let f = frame("seg", false, 7, b"abc");
    assert!(try_decode_router(&f[..4]).unwrap().is_none());
    assert!(try_decode_router(&f[..f.len() - 1]).unwrap().is_none());
    assert!(try_decode_router(&[]).unwrap().is_none());
}

#[test]
fn decode_trailing_bytes_belong_to_next_frame() {
    let mut f = frame("seg", false, 7, b"abc");
    let len = f.len();
    f.extend_from_slice(&frame("other", true, 9, b""));
    let d = try_decode_router(&f).unwrap().unwrap();
    assert_eq!(d.frame_len, len);
    assert_eq!(d.segment, "seg");
    assert!(!d.is_write);
}

#[test]
fn decode_bad_magic() {
    let mut f = frame("seg", false, 7, b"abc");
    f[0] = 0x00;
    assert_eq!(parse_message(try_decode_router(&f)), "bad router magic");
}

#[test]
fn decode_frame_too_large() {
    let mut f = vec![ROUTER_MAGIC];
    f.extend_from_slice(&(16 * 1024 * 1024 + 1u32).to_le_bytes());
    assert_eq!(parse_message(try_decode_router(&f)), "frame too large");
}

#[test]
fn decode_total_len_too_small() {
    let f = vec![ROUTER_MAGIC, 1, 0, 0, 0, 0];
    assert_eq!(parse_message(try_decode_router(&f)), "router total_len too small");
}

#[test]
fn decode_segment_out_of_range() {
    let f = vec![ROUTER_MAGIC, 3, 0, 0, 0, 5, b'a', b'b'];
    assert_eq!(parse_message(try_decode_router(&f)), "segment length out of range");
}

#[test]
fn decode_segment_not_utf8() {
    let mut f = frame("ab", false, 7, b"");
    f[6] = 0xFF;
    assert_eq!(parse_message(try_decode_router(&f)), "segment not utf-8");
}

#[test]
fn decode_missing_shard_magic() {
    let mut f = frame("ab", false, 7, b"");
    f[9] = 0x00;
    assert_eq!(parse_message(try_decode_router(&f)), "missing shard magic");
    // A shard header shorter than 9 bytes is missing too.
    let g = vec![ROUTER_MAGIC, 4, 0, 0, 0, 1, b'a', 0, SHARD_MAGIC];
    assert_eq!(parse_message(try_decode_router(&g)), "missing shard magic");
}

#[test]
fn keepalive_frame_layout_and_roundtrip() {
    let k = build_keepalive_frame(0x01020304);
    assert_eq!(k.len(), 29);
    assert_eq!(k[0], ROUTER_MAGIC);
    assert_eq!(read_u32_le(&k, 1), 24);
    assert_eq!(k[5], 13);
    assert_eq!(&k[6..19], b"__keepalive__");
    assert_eq!(&k[19..25], &[0, SHARD_MAGIC, 4, 3, 2, 1]);
    assert_eq!(&k[25..], &[0, 0, 0, 0]);
    let d = try_decode_router(&k).unwrap().unwrap();
    assert_eq!(d.segment, KEEPALIVE_SEGMENT);
    assert!(!d.is_write);
    assert_eq!(d.clrid_offset, 21);
    assert_eq!(d.original_clrid, 0x01020304);
    assert_eq!(d.frame_len, 29);
}

#[test]
fn error_response_layout() {
    let r = build_error_response(0x11223344, 1);
    let mut expected = vec![0xFF, 0x44, 0x33, 0x22, 0x11, 22, 0, 0, 0];
    expected.extend_from_slice(&[5, b'E', b'R', b'R', b'O', b'R', 1, 0, 1, 0, 1, 4, 0, 0, 0]);
    expected.extend_from_slice(&[3, 0, 0, 0]);
    expected.extend_from_slice(b"404");
    assert_eq!(r, expected);
}

#[test]
fn error_response_messages() {
    assert_eq!(&build_error_response(1, 1)[28..], b"404");
    assert_eq!(&build_error_response(1, 2)[28..], b"503");
    assert_eq!(&build_error_response(1, 3)[28..], b"408");
    assert_eq!(&build_error_response(1, 4)[28..], b"500");
    assert_eq!(&build_error_response(1, 77)[28..], b"500");
    assert_eq!(build_error_response(9, 2).len(), 31);
}

#[test]
fn find_magic() {
    let b = [1u8, 2, ROUTER_MAGIC, 3, ROUTER_MAGIC];
    assert_eq!(find_next_router_magic(&b, 0), Some(2));
    assert_eq!(find_next_router_magic(&b, 3), Some(4));
    assert_eq!(find_next_router_magic(&b, 5), None);
    assert_eq!(find_next_router_magic(&[1u8, 2, 3], 0), None);
}

#[test]
fn read_le() {
    assert_eq!(read_u32_le(&[0x78, 0x56, 0x34, 0x12, 0xFF], 0), 0x12345678);
    assert_eq!(read_u32_le(&[0, 0xFF, 0xFF, 0xFF, 0xFF], 1), u32::MAX);
}
