//! Frame and envelope codec behaviour: encodings round-trip, truncated
//! frames wait for more bytes, and malformed payloads are rejected.

use quix::ids::Uuid;
use quix::util::uuid;
use quix::wire::{decode_net, encode_net, Meta, Net, NetCodec, Request, Response};

fn frame_of(m: &Net) -> Vec<u8> {
    let codec = NetCodec;
    let mut out = Vec::new();
    codec.encode(m, &mut out).expect("frame encodes");
    out
}

fn round_trip(m: Net) {
    let codec = NetCodec;
    let mut buf = frame_of(&m);
    let got = codec.decode(&mut buf).expect("frame decodes");
    assert_eq!(got, Some(m));
    assert!(buf.is_empty());
}

#[test]
fn meta_round_trips() {
    round_trip(Net::Meta(Meta { nodeid: Uuid(0x0123_4567_89ab_cdef_0011_2233_4455_6677) }));
}

#[test]
fn ping_pong_round_trip() {
    round_trip(Net::Ping);
    round_trip(Net::Pong);
}

#[test]
fn request_full_round_trips() {
    round_trip(Net::Request(Request {
        procid: Some(Uuid(42)),
        correlation: Some(7),
        method: 0xdead_beef,
        body: vec![1, 2, 3, 4, 5],
    }));
}

#[test]
fn request_minimal_round_trips() {
    round_trip(Net::Request(Request {
        procid: None,
        correlation: None,
        method: 0,
        body: Vec::new(),
    }));
}

#[test]
fn request_negative_correlation_round_trips() {
    for corr in [-1i64, i64::MIN, i64::MAX, 0, 300] {
        round_trip(Net::Request(Request {
            procid: None,
            correlation: Some(corr),
            method: u32::MAX,
            body: vec![0xff; 200],
        }));
    }
}

#[test]
fn response_body_round_trips() {
    round_trip(Net::Response(Response {
        correlation: 99,
        body: Some(b"hello".to_vec()),
        error: None,
    }));
}

#[test]
fn response_error_round_trips() {
    for code in [1i32, 2, 3, 4, 5, 99] {
        round_trip(Net::Response(Response { correlation: -3, body: None, error: Some(code) }));
    }
}

#[test]
fn ping_frame_is_bit_exact() {
    // Four big-endian length bytes, the ping tag, an empty message.
    assert_eq!(frame_of(&Net::Ping), vec![0, 0, 0, 2, 0x12, 0x00]);
}

#[test]
fn request_frame_is_bit_exact() {
    let m = Net::Request(Request {
        procid: None,
        correlation: Some(1),
        method: 0x0102_0304,
        body: vec![0xaa, 0xbb],
    });
    // correlation: tag 0x10, varint 1; method: tag 0x1d, fixed32
    // little-endian; body: tag 0x22, length 2, two bytes — all wrapped as
    // envelope field 4 with its length.
    let payload = vec![0x10, 0x01, 0x1d, 0x04, 0x03, 0x02, 0x01, 0x22, 0x02, 0xaa, 0xbb];
    let mut expected = vec![0, 0, 0, (payload.len() + 2) as u8, 0x22, payload.len() as u8];
    expected.extend_from_slice(&payload);
    assert_eq!(frame_of(&m), expected);
}

#[test]
fn every_truncation_waits_for_more() {
    let full = frame_of(&Net::Request(Request {
        procid: Some(Uuid(7)),
        correlation: Some(123456789),
        method: 17,
        body: vec![9; 33],
    }));
    let codec = NetCodec;
    for cut in 0..full.len() {
        let mut buf = full[..cut].to_vec();
        let got = codec.decode(&mut buf).expect("truncation is never an error");
        assert!(got.is_none());
        assert_eq!(buf.len(), cut, "nothing may be consumed while waiting");
    }
}

#[test]
fn two_frames_in_one_buffer() {
    let mut buf = frame_of(&Net::Ping);
    buf.extend_from_slice(&frame_of(&Net::Pong));
    let codec = NetCodec;
    assert_eq!(codec.decode(&mut buf).unwrap(), Some(Net::Ping));
    assert_eq!(codec.decode(&mut buf).unwrap(), Some(Net::Pong));
    assert_eq!(codec.decode(&mut buf).unwrap(), None);
}

#[test]
fn response_with_body_and_error_is_rejected() {
    // correlation 1, a body field and an error field together: a protocol
    // violation the decoder must refuse.
    let payload = vec![0x08, 0x01, 0x12, 0x01, 0xaa, 0x18, 0x05];
    let mut framed = vec![0x2a, payload.len() as u8];
    framed.extend_from_slice(&payload);
    assert!(decode_net(&framed).is_err());
}

#[test]
fn response_with_neither_body_nor_error_is_rejected() {
    let payload = vec![0x08, 0x01];
    let mut framed = vec![0x2a, payload.len() as u8];
    framed.extend_from_slice(&payload);
    assert!(decode_net(&framed).is_err());
}

#[test]
fn garbage_envelope_is_rejected() {
    assert!(decode_net(&[]).is_err());
    assert!(decode_net(&[0x42, 0x01, 0x00]).is_err());
    let mut buf = vec![0, 0, 0, 3, 0x42, 0x01, 0x00];
    let codec = NetCodec;
    assert!(codec.decode(&mut buf).is_err());
}

#[test]
fn envelope_bytes_round_trip_without_frame() {
    let m = Net::Meta(Meta { nodeid: Uuid(u128::MAX) });
    let bytes = encode_net(&m);
    assert_eq!(decode_net(&bytes).unwrap(), m);
}

#[test]
fn uuid_reads_its_wire_bytes() {
    let bytes: Vec<u8> = (0u8..16).collect();
    let id = uuid(&bytes);
    assert_eq!(id.0, 0x0001_0203_0405_0607_0809_0a0b_0c0d_0e0f);
    assert_eq!(id.to_bytes(), bytes);
    assert!(!id.is_nil());
    assert!(Uuid::nil().is_nil());
}
