use bytes::{Bytes, BytesMut};
use rzrouter::connection::{next_response, ResponseStep};
use rzrouter::error::ForwardError;
use rzrouter::forwarder::{
    classify_request, codecs_text, failure_error, restore_clrid, rewrite_clrid, ForwardAction, ForwardEvent,
    ForwardFailure, ForwardPlan, RequestKind,
};
use rzrouter::protocol::{build_error_response, build_keepalive_frame, ROUTER_MAGIC, SHARD_MAGIC};
use rzrouter::tcp_server::{forward_error_code, next_frame_step, FrameStep};

fn frame(segment: &str, is_write: bool, clrid: u32, payload: &[u8]) -> Vec<u8> {
    let shard_len = payload.len() as u32;
    let total = 1 + segment.len() as u32 + 1 + 9 + shard_len;
    let mut out = vec![ROUTER_MAGIC];
    out.extend_from_slice(&total.to_le_bytes());
    out.push(segment.len() as u8);
    out.extend_from_slice(segment.as_bytes());
    out.push(if is_write { 1 } else { 0 });
    out.push(SHARD_MAGIC);
    out.extend_from_slice(&clrid.to_le_bytes());
    out.extend_from_slice(&shard_len.to_le_bytes());
    out.extend_from_slice(payload);
    out
}

#[test]
fn request_kinds_and_codecs() {
    assert!(classify_request("GETSEGMENTS") == RequestKind::Segments);
    assert!(classify_request("__codecs__") == RequestKind::Codecs);
    assert!(classify_request("london") == RequestKind::Routed);
    let c: Vec<String> = vec!["a".to_string(), "bb".to_string(), "c".to_string()];
    assert_eq!(codecs_text(&c), "a,bb,c");
    assert_eq!(codecs_text(&vec!["x".to_string()]), "x");
    assert_eq!(codecs_text(&Vec::new()), "");
}

#[test]
fn clrid_rewrite_and_restore() {
    let mut f = BytesMut::from(&frame("s", false, 0x01020304, b"p")[..]);
    assert!(rewrite_clrid(&mut f, 9, 0xAABBCCDD).is_ok());
    assert_eq!(&f[9..13], &[0xDD, 0xCC, 0xBB, 0xAA]);
    assert_eq!(f.len(), 1 + 4 + 1 + 1 + 1 + 9 + 1);
    let mut short = BytesMut::from(&[1u8, 2, 3][..]);
    match rewrite_clrid(&mut short, 0, 5) {
        Err(ForwardError::Internal(m)) => assert_eq!(m, "frame too short for CLRID"),
        _ => panic!("expected an internal error"),
    }
    assert_eq!(&short[..], &[1, 2, 3]);
    match rewrite_clrid(&mut short, usize::MAX, 5) {
        Err(ForwardError::Internal(_)) => {},
        _ => panic!("expected an internal error"),
    }

    let resp = Bytes::from(vec![0xFF, 9, 9, 9, 9, 1, 0, 0, 0, 42]);
    let r = restore_clrid(resp, 0x11223344);
    assert_eq!(&r[..], &[0xFF, 0x44, 0x33, 0x22, 0x11, 1, 0, 0, 0, 42]);
    let tiny = Bytes::from(vec![1u8, 2, 3]);
    assert_eq!(&restore_clrid(tiny, 7)[..], &[1, 2, 3]);
}

#[test]
fn failure_errors_and_codes() {
    assert!(failure_error(ForwardFailure::UnknownSegment, "x") == ForwardError::UnknownSegment("x".to_string()));
    assert!(failure_error(ForwardFailure::NetworkError, "x") == ForwardError::NetworkError);
    assert!(failure_error(ForwardFailure::Timeout, "x") == ForwardError::Timeout);
    assert_eq!(forward_error_code(&ForwardError::UnknownSegment("a".to_string())), 1);
    assert_eq!(forward_error_code(&ForwardError::NetworkError), 2);
    assert_eq!(forward_error_code(&ForwardError::Timeout), 3);
    assert_eq!(forward_error_code(&ForwardError::Internal("a".to_string())), 4);
}

#[test]
fn read_retries_across_hops_and_attempts() {
    let (mut p, a) = ForwardPlan::start(2, false, 5);
    assert!(a == ForwardAction::Route);
    // Three hops: the first tried is 5 % 3 = 2, then 0, then 1.
    assert!(p.advance(ForwardEvent::Routed(3)) == ForwardAction::TryHop(2));
    assert!(p.advance(ForwardEvent::HopSkipped) == ForwardAction::TryHop(0));
    assert!(p.advance(ForwardEvent::SendFailed) == ForwardAction::TryHop(1));
    assert!(p.advance(ForwardEvent::SendClosed) == ForwardAction::Backoff(50));
    assert!(p.advance(ForwardEvent::BackoffDone) == ForwardAction::Route);
    assert!(p.advance(ForwardEvent::Routed(1)) == ForwardAction::TryHop(0));
    assert!(p.advance(ForwardEvent::SendFailed) == ForwardAction::Fail(ForwardFailure::NetworkError));
}

#[test]
fn write_not_retried_after_failed_send() {
    let (mut p, _) = ForwardPlan::start(3, true, 0);
    assert!(p.advance(ForwardEvent::Routed(2)) == ForwardAction::TryHop(0));
    assert!(p.advance(ForwardEvent::SendClosed) == ForwardAction::TryHop(1));
    assert!(p.advance(ForwardEvent::SendFailed) == ForwardAction::Fail(ForwardFailure::Timeout));
}

#[test]
fn unknown_segment_and_no_retries() {
    let (mut p, _) = ForwardPlan::start(3, false, 0);
    assert!(p.advance(ForwardEvent::Routed(0)) == ForwardAction::Fail(ForwardFailure::UnknownSegment));
    let (_, a) = ForwardPlan::start(0, false, 0);
    assert!(a == ForwardAction::Fail(ForwardFailure::NetworkError));
    let (mut p, _) = ForwardPlan::start(3, false, 0);
    p.advance(ForwardEvent::Routed(1));
    assert!(p.advance(ForwardEvent::HopSkipped) == ForwardAction::Backoff(50));
    p.advance(ForwardEvent::BackoffDone);
    p.advance(ForwardEvent::Routed(1));
    assert!(p.advance(ForwardEvent::HopSkipped) == ForwardAction::Backoff(100));
    p.advance(ForwardEvent::BackoffDone);
    p.advance(ForwardEvent::Routed(1));
    assert!(p.advance(ForwardEvent::HopSkipped) == ForwardAction::Fail(ForwardFailure::NetworkError));
}

#[test]
fn frame_steps_take_frames_off_the_buffer() {
    let mut data = frame("seg", true, 77, b"abc");
    let first_len = data.len();
    data.extend_from_slice(&build_keepalive_frame(0));
    data.extend_from_slice(&frame("seg", false, 1, b"")[..5]);
    let mut buf = BytesMut::from(&data[..]);
    match next_frame_step(&mut buf, 1024, 1024, false) {
        FrameStep::Request(r) => {
            assert_eq!(r.segment, "seg");
            assert!(r.is_write);
            assert_eq!(r.original_clrid, 77);
            assert_eq!(r.clrid_offset, 1 + 4 + 1 + 3 + 1 + 1);
            assert_eq!(&r.frame[..], &data[..first_len]);
        },
        _ => panic!("expected a request"),
    }
    assert!(matches!(next_frame_step(&mut buf, 1024, 1024, false), FrameStep::Keepalive));
    assert_eq!(buf.len(), 5);
    assert!(matches!(next_frame_step(&mut buf, 1024, 1024, false), FrameStep::NeedMore));
    assert!(matches!(next_frame_step(&mut buf, 1024, 1024, true), FrameStep::FrameTimeout));
    assert_eq!(buf.len(), 5);
}

#[test]
fn frame_step_limits() {
    let data = frame("seg", false, 1, &[0u8; 40]);
    let mut buf = BytesMut::from(&data[..]);
    assert!(matches!(next_frame_step(&mut buf, 10, 1024, false), FrameStep::BufferOverflow));
    assert!(matches!(next_frame_step(&mut buf, 1024, 20, false), FrameStep::FrameTooLarge));
    assert_eq!(buf.len(), data.len());
}

#[test]
fn frame_step_resync() {
    let mut data = vec![1u8, 2, 3, 4, 5, 6];
    data.extend_from_slice(&frame("s", false, 1, b""));
    let mut buf = BytesMut::from(&data[..]);
    assert!(matches!(next_frame_step(&mut buf, 1024, 1024, false), FrameStep::Resynced));
    assert_eq!(buf[0], ROUTER_MAGIC);
    assert!(matches!(next_frame_step(&mut buf, 1024, 1024, false), FrameStep::Request(_)));
    assert!(buf.is_empty());

    let garbage = vec![7u8; 100];
    let mut buf = BytesMut::from(&garbage[..]);
    assert!(matches!(next_frame_step(&mut buf, 1024, 1024, false), FrameStep::ResyncPending));
    assert_eq!(buf.len(), 8);
    let mut buf = BytesMut::from(&garbage[..20]);
    assert!(matches!(next_frame_step(&mut buf, 1024, 1024, false), FrameStep::ResyncPending));
    assert_eq!(buf.len(), 19);
}

#[test]
fn response_reading() {
    let mut data = vec![0u8];
    data.extend_from_slice(&build_error_response(0x0A0B0C0D, 3));
    data.extend_from_slice(&[0xFF, 1, 0]);
    let mut buf = BytesMut::from(&data[..]);
    assert!(matches!(next_response(&mut buf), ResponseStep::SkippedByte));
    match next_response(&mut buf) {
        ResponseStep::Response { clrid, frame } => {
            assert_eq!(clrid, 0x0A0B0C0D);
            assert_eq!(&frame[..], &build_error_response(0x0A0B0C0D, 3)[..]);
        },
        _ => panic!("expected a response"),
    }
    assert!(matches!(next_response(&mut buf), ResponseStep::NeedMore));
    assert_eq!(buf.len(), 3);
    let mut partial = BytesMut::from(&build_error_response(1, 1)[..20]);
    assert!(matches!(next_response(&mut partial), ResponseStep::NeedMore));
    assert_eq!(partial.len(), 20);
}
