//! The simulated sender: frame structure, payload stamps, pacing, and a
//! frame-level round trip.

use openssl::symm::{decrypt_aead, encrypt_aead, Cipher};
use safecast::keying::granularity::{Granularity, RekeyingStream};
use safecast::keying::ratchet::{split_key_salt, KeySalt, StreamRatchet};
use safecast::simulation::sender::{SimulatedSender, StreamModel, FPS, FRAME_PERIOD, START_TS};
use safecast::transport::rtp::RTP_HEADER_LEN;

/// Unique identifier for the test stream.
const SSRC: u32 = 0x5EED_CAFE;

/// A fixed 32-byte ratchet seed shared by sender and receiver.
fn seed() -> Vec<u8> {
    (0..32u8).collect()
}

/// The RFC 7714 initialization vector in the first rollover.
fn gcm_iv(packet: &[u8], salt: &[u8]) -> [u8; 12] {
    let mut iv = [0u8; 12];
    iv[2..6].copy_from_slice(&packet[8..12]);
    iv[10..12].copy_from_slice(&packet[2..4]);
    for (b, s) in iv.iter_mut().zip(salt) {
        *b ^= s;
    }
    iv
}

/// Encrypts the payload in place and appends the tag.
fn seal(key_salt: &KeySalt, packet: &mut Vec<u8>) {
    let (key, salt) = split_key_salt(key_salt);
    let iv = gcm_iv(packet, salt);
    let mut tag = [0u8; 16];
    let (header, payload) = packet.split_at(RTP_HEADER_LEN);
    let sealed =
        encrypt_aead(Cipher::aes_128_gcm(), key, Some(&iv), header, payload, &mut tag).unwrap();
    packet.truncate(RTP_HEADER_LEN);
    packet.extend_from_slice(&sealed);
    packet.extend_from_slice(&tag);
}

/// Checks the tag and decrypts the payload in place.
fn open(key_salt: &KeySalt, packet: &mut Vec<u8>) -> Result<(), String> {
    let (key, salt) = split_key_salt(key_salt);
    let iv = gcm_iv(packet, salt);
    let body = packet.len() - 16;
    let opened = decrypt_aead(
        Cipher::aes_128_gcm(),
        key,
        Some(&iv),
        &packet[..RTP_HEADER_LEN],
        &packet[RTP_HEADER_LEN..body],
        &packet[body..],
    )
    .map_err(|e| e.to_string())?;
    packet.truncate(RTP_HEADER_LEN);
    packet.extend_from_slice(&opened);
    Ok(())
}

/// ppf = FRAME_BYTES/payload packets per frame, all sharing the frame's
/// timestamp, which advances by FRAME_PERIOD at each frame boundary.
#[test]
fn frame_structure_matches_ideal_bench_model() {
    let stream = StreamModel::new(1424, SSRC);
    // one 1080p frame is 1920 x 1080 px x 2.5 B/px = 5,184,000 B; split into
    // 1424 B payloads = 3640 packets per frame
    assert_eq!(stream.packets_per_frame(), 3640);
    // every packet of frame 0 carries the frame's timestamp
    assert_eq!(stream.timestamp(0), START_TS);
    assert_eq!(stream.timestamp(3639), START_TS);
    // the first packet of frame 1 steps by exactly one FRAME_PERIOD
    assert_eq!(stream.timestamp(3640), START_TS + FRAME_PERIOD);
    // jumbo payload: 5,184,000 / 8924 = 580 packets per frame
    assert_eq!(StreamModel::new(8924, SSRC).packets_per_frame(), 580);
}

/// Packet i carries seq = i mod 65,536, and same-seq packets still differ in
/// payload.
#[test]
fn seq_wraps_but_payload_stays_unique() {
    let stream = StreamModel::new(1424, SSRC);
    let seq_of = |i: u64| {
        let pkt = stream.plain_packet(i);
        u16::from_be_bytes([pkt[2], pkt[3]])
    };
    assert_eq!(seq_of(0), 0);
    assert_eq!(seq_of(65_535), 65_535);
    // the field wraps back to 0...
    assert_eq!(seq_of(65_536), 0);
    assert_eq!(seq_of(65_537), 1);
    // ...but the first 8 payload bytes hold the full packet index
    assert_ne!(stream.payload(0), stream.payload(65_536));
}

/// Frame f starts at exactly f/FPS seconds, packets within a frame are evenly
/// spaced, and send times strictly increase.
#[test]
fn send_times_are_evenly_paced_and_monotonic() {
    let stream = StreamModel::new(1424, SSRC);
    let ppf = stream.packets_per_frame();
    // packet 0 leaves at time 0
    assert_eq!(stream.send_ns(0), 0);
    // the first packet of frame 1 leaves exactly one frame duration later
    assert_eq!(stream.send_ns(ppf), 1_000_000_000/FPS);
    // and the first packet of frame 2 leaves at exactly twice that
    assert_eq!(stream.send_ns(2 * ppf), 2 * 1_000_000_000 / FPS);
    // within a frame: 16,666,666 ns/3640 packets = ~4578 ns between packets
    let spacing = stream.send_ns(1) - stream.send_ns(0);
    assert!(
        (4578..=4579).contains(&spacing),
        "unexpected spacing {spacing} ns"
    );
    // strictly increasing over two whole frames, including the boundary
    let mut prev = stream.send_ns(0);
    for i in 1..=2 * ppf {
        let t = stream.send_ns(i);
        assert!(t > prev, "send time not increasing at packet {i}");
        prev = t;
    }
}

/// Encrypt every packet with the SimulatedSender, decrypt in send order with a
/// receiver seeded alike.
#[test]
fn round_trip_frame_level() {
    // jumbo payload: 580 packets per frame
    let stream = StreamModel::new(8924, SSRC);
    // the sender under test
    let mut sender =
        SimulatedSender::new(stream, Granularity::Frame, StreamRatchet::from_seed(seed()));
    // in-order receiver, seeded like the sender
    let mut receiver =
        RekeyingStream::new(Granularity::Frame, SSRC, StreamRatchet::from_seed(seed()));
    // 3 frames = 1740 packets, so two frame boundaries are crossed
    for i in 0..(3 * stream.packets_per_frame()) {
        // producing encrypted packet i
        let (j, mut buf, _) = sender.next_packet();
        // the sender hands out indices sequentially from 0
        assert_eq!(j, i);
        seal(sender.installed_key(), &mut buf);
        // decrypting
        receiver.rekey_for(&buf);
        open(receiver.installed_key(), &mut buf)
            .unwrap_or_else(|e| panic!("unprotect failed at packet {i}: {e:?}"));
        // the sender encrypted the right thing
        assert_eq!(
            buf,
            stream.plain_packet(i),
            "round-trip mismatch at packet {i}"
        );
    }
    // after frames 0, 1, 2 the receiver's ratchet sits at generation 2
    assert_eq!(receiver.generation(), 2);
    assert_eq!(sender.cursor(), 1740);
}

/// A payload is the packet's index, least significant byte first, then a fill.
#[test]
fn payload_starts_with_the_index() {
    let stream = StreamModel::new(100, SSRC);
    let payload = stream.payload(0x0102_0304_0506_0708);
    assert_eq!(payload.len(), 100);
    assert_eq!(u64::from_le_bytes(payload[..8].try_into().unwrap()), 0x0102_0304_0506_0708);
    assert_eq!(stream.payload_size(), 100);
    assert_eq!(stream.ssrc(), SSRC);
}

/// A new key comes exactly with the first packet of each later frame.
#[test]
fn sender_rekeys_at_frame_boundaries() {
    // one packet is a large part of a frame: 5,184,000 / 1,000,000 = 5
    let stream = StreamModel::new(1_000_000, SSRC);
    assert_eq!(stream.packets_per_frame(), 5);
    let mut sender =
        SimulatedSender::new(stream, Granularity::Frame, StreamRatchet::from_seed(seed()));
    for i in 0..15u64 {
        let (_, _, key) = sender.next_packet();
        assert_eq!(key.is_some(), i > 0 && i % 5 == 0, "packet {i}");
    }
}

/// Of any two packets the later one is sent later.
#[test]
fn any_later_packet_leaves_later() {
    let stream = StreamModel::new(1_200, 7);
    let picks = [0u64, 1, 2, 17, 400, 401, 9_999, 1_000_000];
    for (a, i) in picks.iter().enumerate() {
        for j in &picks[a + 1..] {
            assert!(stream.send_ns(*i) < stream.send_ns(*j));
        }
    }
}
