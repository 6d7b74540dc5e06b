//! RTP packets: serialization, parsing, and what the header holds.

use safecast::transport::multicast::{multicast_dest, MULTICAST_ADDR, MULTICAST_PORT};
use safecast::transport::rtp::{RtpPacket, RTP_HEADER_LEN};

#[test]
fn rtp_serialize_deserialize_round_trip() {
    // a minimal RTP packet with the fixed 12-byte header fields
    let pkt = RtpPacket {
        payload_type: 111,
        sequence_number: 42,
        timestamp: 960 * 42,
        ssrc: 0xDEADBEEF,
        payload: b"test payload".to_vec(),
    };

    // wire format: 12-byte header || payload
    let bytes = pkt.to_bytes();
    assert_eq!(bytes.len(), RTP_HEADER_LEN + pkt.payload.len());

    // the first byte is 0x80: version 2, no padding, no extension, no CSRCs
    assert_eq!(bytes[0], 0x80);

    // parsing recovers all fields
    let parsed = RtpPacket::from_bytes(&bytes).expect("parse failed");
    assert_eq!(parsed.payload_type, 111);
    assert_eq!(parsed.sequence_number, 42);
    assert_eq!(parsed.timestamp, 960 * 42);
    assert_eq!(parsed.ssrc, 0xDEADBEEF);
    assert_eq!(parsed.payload, b"test payload");
}

#[test]
fn rtp_from_bytes_rejects_short_input() {
    assert!(RtpPacket::from_bytes(&[0u8; 11]).is_none());
    assert!(RtpPacket::from_bytes(&[]).is_none());
}

#[test]
fn rtp_wire_bytes_are_exact() {
    let pkt = RtpPacket {
        payload_type: 96,
        sequence_number: 0x0102,
        timestamp: 0x03040506,
        ssrc: 0x0708090A,
        payload: vec![0xFF, 0xEE],
    };
    assert_eq!(
        pkt.to_bytes(),
        vec![0x80, 96, 1, 2, 3, 4, 5, 6, 7, 8, 9, 10, 0xFF, 0xEE]
    );
}

#[test]
fn rtp_marker_bit_is_not_part_of_the_payload_type() {
    let pkt = RtpPacket {
        payload_type: 0x80 | 33,
        sequence_number: 0,
        timestamp: 0,
        ssrc: 0,
        payload: Vec::new(),
    };
    let bytes = pkt.to_bytes();
    assert_eq!(bytes[1], 33);
    // a set marker bit on the wire is ignored
    let mut marked = bytes.clone();
    marked[1] |= 0x80;
    assert_eq!(RtpPacket::from_bytes(&marked).unwrap().payload_type, 33);
}

#[test]
fn rtp_header_alone_is_a_packet_without_payload() {
    let parsed = RtpPacket::from_bytes(&[0u8; RTP_HEADER_LEN]).expect("a header suffices");
    assert!(parsed.payload.is_empty());
}

#[test]
fn multicast_destination_is_host_and_port() {
    assert_eq!(MULTICAST_ADDR, "239.0.0.1");
    assert_eq!(MULTICAST_PORT, 5004);
    assert_eq!(multicast_dest(), "239.0.0.1:5004");
}

/// Writing what was parsed gives the bytes back; the flags are set anew and the
/// marker goes off.
#[test]
fn rtp_parse_serialize_round_trip() {
    let bytes: Vec<u8> = vec![0x80, 0x6F, 1, 2, 3, 4, 5, 6, 7, 8, 9, 10, 0xAA, 0xBB];
    assert_eq!(RtpPacket::from_bytes(&bytes).unwrap().to_bytes(), bytes);
    let mut marked = bytes.clone();
    marked[0] = 0x90;
    marked[1] |= 0x80;
    assert_eq!(RtpPacket::from_bytes(&marked).unwrap().to_bytes(), bytes);
}
