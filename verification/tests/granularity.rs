//! Round trips for the keying granularities: a sender and a receiver seeded
//! alike stay key-synchronized with no per-packet signaling.
//!
//! The cipher is AES-128-GCM as SRTP runs it (RFC 7714), keyed with whatever
//! the streams say.

use openssl::symm::{decrypt_aead, encrypt_aead, Cipher};
use safecast::keying::granularity::{Granularity, RekeyingStream};
use safecast::keying::ratchet::{split_key_salt, KeySalt, StreamRatchet};
use safecast::transport::rtp::{RtpPacket, RTP_HEADER_LEN};

const SSRC: u32 = 0x1234_5678;
/// Frames in the test stream.
const FRAMES: u32 = 4;
/// Packets per frame (all sharing one timestamp).
const PACKETS_PER_FRAME: u32 = 5;
/// Ticks the RTP timestamp advances per frame (90 kHz/60 fps = 1500).
const FRAME_PERIOD: u32 = 1500;
/// First frame's timestamp.
const START_TS: u32 = 9000;

/// A fixed, obviously-not-secret 32-byte ratchet seed.
fn seed() -> Vec<u8> {
    (0..32u8).collect()
}

/// The RFC 7714 initialization vector in the first rollover.
fn gcm_iv(packet: &[u8], salt: &[u8]) -> [u8; 12] {
    let mut iv = [0u8; 12];
    iv[2..6].copy_from_slice(&packet[8..12]);
    iv[10..12].copy_from_slice(&packet[2..4]);
    for (b, s) in iv.iter_mut().zip(salt) {
        *b ^= s;
    }
    iv
}

/// Encrypts the payload in place and appends the tag.
fn seal(key_salt: &KeySalt, packet: &mut Vec<u8>) {
    let (key, salt) = split_key_salt(key_salt);
    let iv = gcm_iv(packet, salt);
    let mut tag = [0u8; 16];
    let (header, payload) = packet.split_at(RTP_HEADER_LEN);
    let sealed =
        encrypt_aead(Cipher::aes_128_gcm(), key, Some(&iv), header, payload, &mut tag).unwrap();
    packet.truncate(RTP_HEADER_LEN);
    packet.extend_from_slice(&sealed);
    packet.extend_from_slice(&tag);
}

/// Checks the tag and decrypts the payload in place.
fn open(key_salt: &KeySalt, packet: &mut Vec<u8>) -> Result<(), ()> {
    let (key, salt) = split_key_salt(key_salt);
    let iv = gcm_iv(packet, salt);
    let body = packet.len() - 16;
    let opened = decrypt_aead(
        Cipher::aes_128_gcm(),
        key,
        Some(&iv),
        &packet[..RTP_HEADER_LEN],
        &packet[RTP_HEADER_LEN..body],
        &packet[body..],
    )
    .map_err(|_| ())?;
    packet.truncate(RTP_HEADER_LEN);
    packet.extend_from_slice(&opened);
    Ok(())
}

/// One RTP packet with a payload distinct per (frame, pkt).
fn packet(frame: u32, pkt: u32, seq: u16) -> Vec<u8> {
    RtpPacket {
        payload_type: 96,
        sequence_number: seq,
        timestamp: START_TS + frame * FRAME_PERIOD,
        ssrc: SSRC,
        payload: vec![(frame as u8).wrapping_mul(31).wrapping_add(pkt as u8); 200],
    }
    .to_bytes()
}

/// Drives a round trip and returns the final installed generation.
fn run_round_trip(granularity: Granularity) -> u64 {
    let mut sender = RekeyingStream::new(granularity, SSRC, StreamRatchet::from_seed(seed()));
    let mut receiver = RekeyingStream::new(granularity, SSRC, StreamRatchet::from_seed(seed()));
    let mut seq: u16 = 0;
    for frame in 0..FRAMES {
        for pkt in 0..PACKETS_PER_FRAME {
            let original = packet(frame, pkt, seq);

            // the sender encrypts in place
            let mut wire = original.clone();
            let rekeyed = sender.rekey_for(&wire);
            if let Some(key_salt) = rekeyed {
                assert_eq!(&key_salt, sender.installed_key());
            }
            seal(sender.installed_key(), &mut wire);
            assert_ne!(wire, original, "packet should be encrypted");

            // the receiver decrypts in place
            receiver.rekey_for(&wire);
            open(receiver.installed_key(), &mut wire).expect("unprotect failed");
            assert_eq!(wire, original, "decrypted packet must match original");

            // both ends are at the same generation
            assert_eq!(
                sender.generation(),
                receiver.generation(),
                "sender/receiver generation diverged at frame {frame} pkt {pkt}"
            );
            seq = seq.wrapping_add(1);
        }
    }
    receiver.generation()
}

/// Epoch-only never rekeys.
#[test]
fn epoch_only_keeps_one_generation() {
    let final_gen = run_round_trip(Granularity::EpochOnly);
    assert_eq!(final_gen, 0, "epoch-only must stay at generation 0");
}

/// Frame-level rekeys once per frame.
#[test]
fn frame_level_advances_once_per_frame() {
    let final_gen = run_round_trip(Granularity::Frame);
    assert_eq!(
        final_gen,
        (FRAMES - 1) as u64,
        "frame-level must reach generation FRAMES-1"
    );
}

/// Packet-level rekeys on every packet.
#[test]
fn packet_level_advances_every_packet() {
    let final_gen = run_round_trip(Granularity::Packet);
    assert_eq!(
        final_gen,
        (FRAMES * PACKETS_PER_FRAME - 1) as u64,
        "packet-level must reach generation totalPackets-1"
    );
}

/// One key per n consecutive packets: 20 packets with n = 6 end in generation
/// 19/6 = 3.
#[test]
fn every_n_advances_once_per_n_packets() {
    let final_gen = run_round_trip(Granularity::EveryN(6));
    assert_eq!(
        final_gen, 3,
        "every-6 keying must reach generation floor(19/6) = 3"
    );
}

/// A wrong key does not open a packet.
#[test]
fn another_generation_does_not_open_a_packet() {
    let mut stream = RekeyingStream::new(Granularity::Packet, SSRC, StreamRatchet::from_seed(seed()));
    let mut wire = packet(0, 0, 0);
    assert!(stream.rekey_for(&wire).is_none(), "the first packet uses generation 0");
    let old = *stream.installed_key();
    seal(&old, &mut wire);
    assert!(stream.rekey_for(&packet(0, 1, 1)).is_some());
    assert_ne!(&old, stream.installed_key());
    assert!(open(stream.installed_key(), &mut wire.clone()).is_err());
    assert!(open(&old, &mut wire).is_ok());
}

/// The stream knows its SSRC and reads timestamps off headers.
#[test]
fn stream_reads_headers() {
    let stream = RekeyingStream::new(Granularity::Frame, SSRC, StreamRatchet::from_seed(seed()));
    assert_eq!(stream.ssrc(), SSRC);
    assert_eq!(RekeyingStream::timestamp(&packet(2, 0, 7)), START_TS + 2 * FRAME_PERIOD);
}
