//! Frame decoder tests: plain and compressed framing, incremental delivery,
//! ordering, and the malformed and oversize verdicts.

use hyperion::compose::{build_frame_compressed, build_frame_plain};
use hyperion::decoder::{DecodeError, FrameDecoder};
use hyperion::varint::write_varint;

fn payload_with_id(id: u32, body: &[u8]) -> Vec<u8> {
    let mut p = Vec::new();
    write_varint(&mut p, id);
    p.extend_from_slice(body);
    p
}

#[test]
fn plain_frame_round_trip() {
    let mut d = FrameDecoder::new();
    let frame = build_frame_plain(&payload_with_id(0x07, b"hello"));
    d.queue_slice(&frame);
    let f = d.try_next().unwrap().expect("one frame");
    assert_eq!(f.id, 0x07);
    assert_eq!(f.body, b"hello");
    assert!(d.try_next().unwrap().is_none());
}

#[test]
fn incomplete_frame_waits_for_more_bytes() {
    let mut d = FrameDecoder::new();
    let frame = build_frame_plain(&payload_with_id(0x01, b"abcdef"));
    d.queue_slice(&frame[..3]);
    assert!(d.try_next().unwrap().is_none());
    d.queue_slice(&frame[3..]);
    let f = d.try_next().unwrap().expect("frame completes");
    assert_eq!(f.id, 0x01);
    assert_eq!(f.body, b"abcdef");
}

#[test]
fn frames_arrive_in_stream_order() {
    let mut d = FrameDecoder::new();
    for i in 0..5u32 {
        let frame = build_frame_plain(&payload_with_id(i, &[i as u8; 3]));
        d.queue_slice(&frame);
    }
    d.shift_excess();
    for i in 0..5u32 {
        let f = d.try_next().unwrap().expect("frame present");
        assert_eq!(f.id, i);
        assert_eq!(f.body, vec![i as u8; 3]);
    }
    assert!(d.try_next().unwrap().is_none());
}

#[test]
fn oversize_frame_is_fatal() {
    let mut d = FrameDecoder::new();
    let mut bytes = Vec::new();
    write_varint(&mut bytes, 0x20_0000);
    d.queue_slice(&bytes);
    assert!(matches!(d.try_next(), Err(DecodeError::Oversize)));
}

#[test]
fn compressed_frame_below_threshold_round_trips() {
    let mut d = FrameDecoder::new();
    d.set_compression(256);
    let frame = build_frame_compressed(&payload_with_id(0x0A, b"tiny"), 256, 6);
    d.queue_slice(&frame);
    let f = d.try_next().unwrap().expect("one frame");
    assert_eq!(f.id, 0x0A);
    assert_eq!(f.body, b"tiny");
}

#[test]
fn compressed_frame_above_threshold_round_trips() {
    let mut d = FrameDecoder::new();
    d.set_compression(16);
    let body: Vec<u8> = (0..4000u32).map(|i| (i % 251) as u8).collect();
    let frame = build_frame_compressed(&payload_with_id(0x2B, &body), 16, 6);
    // The zlib stream must actually shrink this regular payload.
    assert!(frame.len() < body.len());
    d.queue_slice(&frame);
    let f = d.try_next().unwrap().expect("one frame");
    assert_eq!(f.id, 0x2B);
    assert_eq!(f.body, body);
}

#[test]
fn corrupt_zlib_stream_is_fatal() {
    let mut d = FrameDecoder::new();
    d.set_compression(0);
    let mut inner = Vec::new();
    write_varint(&mut inner, 50);
    inner.extend_from_slice(&[0xDE, 0xAD, 0xBE, 0xEF, 0x00, 0x01]);
    let mut frame = Vec::new();
    write_varint(&mut frame, inner.len() as u32);
    frame.extend_from_slice(&inner);
    d.queue_slice(&frame);
    assert!(matches!(d.try_next(), Err(DecodeError::Malformed)));
}
