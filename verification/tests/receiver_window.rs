//! The receiver's key manager under reordering, gaps, duplicates and forgery.

use std::collections::HashSet;

use openssl::symm::{decrypt_aead, encrypt_aead, Cipher};
use safecast::keying::granularity::{Granularity, RekeyingStream};
use safecast::keying::ratchet::{split_key_salt, KeySalt, StreamRatchet};
use safecast::receiver::generation::GenerationScheme;
use safecast::receiver::{ReceiverKeyManager, RecvDrop, SrtpOutcome};
use safecast::transport::rtp::{RtpPacket, RTP_HEADER_LEN};

const SSRC: u32 = 0x5EED_CAFE;
/// First frame's RTP timestamp.
const START_TS: u32 = 90_000;
/// Ticks per frame (90 kHz/60 fps).
const PERIOD: u32 = 1500;

/// A fixed 32-byte ratchet seed shared by sender and receiver.
fn seed() -> Vec<u8> {
    (0..32u8).collect()
}

/// An AES-128-GCM session with a replay set, in the first rollover.
struct Session {
    key: Option<KeySalt>,
    seen: HashSet<u16>,
}

fn gcm_iv(packet: &[u8], salt: &[u8]) -> [u8; 12] {
    let mut iv = [0u8; 12];
    iv[2..6].copy_from_slice(&packet[8..12]);
    iv[10..12].copy_from_slice(&packet[2..4]);
    for (b, s) in iv.iter_mut().zip(salt) {
        *b ^= s;
    }
    iv
}

fn seal(key_salt: &KeySalt, packet: &mut Vec<u8>) {
    let (key, salt) = split_key_salt(key_salt);
    let iv = gcm_iv(packet, salt);
    let mut tag = [0u8; 16];
    let (header, payload) = packet.split_at(RTP_HEADER_LEN);
    let sealed =
        encrypt_aead(Cipher::aes_128_gcm(), key, Some(&iv), header, payload, &mut tag).unwrap();
    packet.truncate(RTP_HEADER_LEN);
    packet.extend_from_slice(&sealed);
    packet.extend_from_slice(&tag);
}

impl Session {
    fn new() -> Self {
        Session { key: None, seen: HashSet::new() }
    }

    fn unprotect(&mut self, packet: &mut Vec<u8>) -> SrtpOutcome {
        let seq = u16::from_be_bytes([packet[2], packet[3]]);
        if self.seen.contains(&seq) {
            return SrtpOutcome::Replay;
        }
        let (key, salt) = split_key_salt(self.key.as_ref().expect("no key installed"));
        let iv = gcm_iv(packet, salt);
        let body = packet.len() - 16;
        match decrypt_aead(
            Cipher::aes_128_gcm(),
            key,
            Some(&iv),
            &packet[..RTP_HEADER_LEN],
            &packet[RTP_HEADER_LEN..body],
            &packet[body..],
        ) {
            Ok(opened) => {
                packet.truncate(RTP_HEADER_LEN);
                packet.extend_from_slice(&opened);
                self.seen.insert(seq);
                SrtpOutcome::Authenticated
            }
            Err(_) => SrtpOutcome::AuthFail,
        }
    }
}

/// Builds `frames x ppf` in-order RTP packets with distinct payloads.
fn make_plain(frames: u32, ppf: u32, payload_len: usize) -> Vec<Vec<u8>> {
    let mut out = Vec::new();
    let mut seq: u16 = 0;
    for f in 0..frames {
        for _ in 0..ppf {
            out.push(
                RtpPacket {
                    payload_type: 96,
                    sequence_number: seq,
                    timestamp: START_TS + f * PERIOD,
                    ssrc: SSRC,
                    payload: vec![(seq as u8).wrapping_mul(7).wrapping_add(3); payload_len],
                }
                .to_bytes(),
            );
            seq = seq.wrapping_add(1);
        }
    }
    out
}

/// Encrypts the packets in send order.
fn encrypt_all(granularity: Granularity, plain: &[Vec<u8>]) -> Vec<Vec<u8>> {
    let mut sender = RekeyingStream::new(granularity, SSRC, StreamRatchet::from_seed(seed()));
    plain
        .iter()
        .map(|p| {
            let mut buf = p.clone();
            sender.rekey_for(&buf);
            seal(sender.installed_key(), &mut buf);
            buf
        })
        .collect()
}

/// The receiver under test: `k` keys in the window, at most `seek_cap` ratchet
/// steps for one packet.
fn receiver(granularity: Granularity, k: usize, seek_cap: u64) -> ReceiverKeyManager {
    ReceiverKeyManager::new(
        GenerationScheme::for_granularity(granularity, START_TS, PERIOD, 0),
        SSRC,
        StreamRatchet::from_seed(seed()),
        k,
        seek_cap,
        0,
    )
}

/// One packet through the manager and the session.
fn unprotect(
    rx: &mut ReceiverKeyManager,
    session: &mut Session,
    packet: &mut Vec<u8>,
) -> Result<u64, RecvDrop> {
    let step = rx.begin_unprotect(packet)?;
    if let Some(key) = step.install {
        session.key = Some(key);
    }
    let outcome = session.unprotect(packet);
    rx.finish_unprotect(outcome)
}

#[test]
fn in_order_delivery_decrypts_everything() {
    for granularity in [
        Granularity::EpochOnly,
        Granularity::Frame,
        Granularity::Packet,
        Granularity::EveryN(3),
    ] {
        let plain = make_plain(4, 5, 50);
        let wire = encrypt_all(granularity, &plain);
        let mut rx = receiver(granularity, 4, 64);
        let mut session = Session::new();
        for (p, w) in plain.iter().zip(&wire) {
            let mut buf = w.clone();
            unprotect(&mut rx, &mut session, &mut buf).expect("must decrypt");
            assert_eq!(&buf, p);
        }
        assert_eq!(rx.stats().decrypted, 20);
        assert_eq!(rx.stats().drops_auth, 0);
    }
}

#[test]
fn reordered_packets_within_the_window_decrypt() {
    let plain = make_plain(1, 6, 20);
    let wire = encrypt_all(Granularity::Packet, &plain);
    let mut rx = receiver(Granularity::Packet, 4, 64);
    let mut session = Session::new();
    for i in [0usize, 3, 1, 2, 5, 4] {
        let mut buf = wire[i].clone();
        let g = unprotect(&mut rx, &mut session, &mut buf).expect("in the window");
        assert_eq!(g, i as u64);
        assert_eq!(buf, plain[i]);
    }
    assert_eq!(rx.frontier(), Some(5));
    assert_eq!(rx.installed_generation(), Some(4));
    // 1, 2 and 4 were found in the window
    assert_eq!(rx.stats().cache_hits, 3);
    // the largest catch-up went from 0 to 3
    assert_eq!(rx.stats().max_catchup, 3);
}

#[test]
fn packets_behind_the_window_are_dropped() {
    let plain = make_plain(1, 6, 20);
    let wire = encrypt_all(Granularity::Packet, &plain);
    let mut rx = receiver(Granularity::Packet, 2, 64);
    let mut session = Session::new();
    unprotect(&mut rx, &mut session, &mut wire[0].clone()).unwrap();
    unprotect(&mut rx, &mut session, &mut wire[5].clone()).unwrap();
    // keys 4 and 5 are held; key 3 is gone
    assert_eq!(
        unprotect(&mut rx, &mut session, &mut wire[3].clone()),
        Err(RecvDrop::BehindWindow)
    );
    assert_eq!(unprotect(&mut rx, &mut session, &mut wire[4].clone()), Ok(4));
    assert_eq!(rx.stats().drops_behind, 1);
}

#[test]
fn a_jump_over_the_seek_cap_is_dropped() {
    let plain = make_plain(1, 12, 20);
    let wire = encrypt_all(Granularity::Packet, &plain);
    let mut rx = receiver(Granularity::Packet, 4, 5);
    let mut session = Session::new();
    unprotect(&mut rx, &mut session, &mut wire[0].clone()).unwrap();
    assert_eq!(
        unprotect(&mut rx, &mut session, &mut wire[6].clone()),
        Err(RecvDrop::SeekCapExceeded)
    );
    assert_eq!(rx.frontier(), Some(0));
    assert_eq!(unprotect(&mut rx, &mut session, &mut wire[5].clone()), Ok(5));
    assert_eq!(rx.stats().drops_seek_cap, 1);
}

#[test]
fn a_duplicate_is_a_replay() {
    let plain = make_plain(1, 2, 20);
    let wire = encrypt_all(Granularity::Packet, &plain);
    let mut rx = receiver(Granularity::Packet, 4, 64);
    let mut session = Session::new();
    unprotect(&mut rx, &mut session, &mut wire[0].clone()).unwrap();
    assert_eq!(
        unprotect(&mut rx, &mut session, &mut wire[0].clone()),
        Err(RecvDrop::SrtpReplay)
    );
    assert_eq!(rx.stats().drops_replay, 1);
}

#[test]
fn a_forged_packet_moves_nothing() {
    let plain = make_plain(1, 6, 20);
    let wire = encrypt_all(Granularity::Packet, &plain);
    let mut rx = receiver(Granularity::Packet, 4, 64);
    let mut session = Session::new();
    unprotect(&mut rx, &mut session, &mut wire[0].clone()).unwrap();
    // packet 5 with a flipped byte: the keys of 1 to 5 are derived in vain
    let mut forged = wire[5].clone();
    forged[20] ^= 0xFF;
    assert_eq!(unprotect(&mut rx, &mut session, &mut forged), Err(RecvDrop::AuthFail));
    assert_eq!(rx.frontier(), Some(0));
    assert_eq!(rx.stats().catchup_steps_wasted, 5);
    // the genuine packets still decrypt
    for i in 1..6 {
        assert_eq!(unprotect(&mut rx, &mut session, &mut wire[i].clone()), Ok(i as u64));
    }
    // every packet got exactly one verdict
    let s = rx.stats();
    assert_eq!(
        s.decrypted + s.drops_behind + s.drops_seek_cap + s.drops_replay + s.drops_auth,
        7
    );
}

#[test]
fn a_packet_shorter_than_a_header_fails_authentication() {
    let mut rx = receiver(Granularity::Frame, 4, 64);
    assert_eq!(rx.begin_unprotect(&[0u8; 11]).err(), Some(RecvDrop::AuthFail));
    assert_eq!(rx.stats().drops_auth, 1);
    assert_eq!(rx.installed_generation(), None);
    assert_eq!(rx.frontier(), None);
    assert_eq!(rx.ssrc(), SSRC);
    assert_eq!(rx.replay_window(), 0);
}

#[test]
fn lost_frames_are_caught_up() {
    let plain = make_plain(10, 2, 20);
    let wire = encrypt_all(Granularity::Frame, &plain);
    let mut rx = receiver(Granularity::Frame, 2, 64);
    let mut session = Session::new();
    // frames 3 to 7 are lost whole
    for (i, w) in wire.iter().enumerate() {
        let frame = i / 2;
        if (3..8).contains(&frame) {
            continue;
        }
        assert_eq!(unprotect(&mut rx, &mut session, &mut w.clone()), Ok(frame as u64));
    }
    assert_eq!(rx.frontier(), Some(9));
    assert_eq!(rx.stats().max_catchup, 6);
}

/// Forged, replayed, old, far and short packets in between change no other
/// packet's answer, nor what it decrypts to.
#[test]
fn rejected_packets_leave_the_others() {
    let plain = make_plain(1, 12, 20);
    let wire = encrypt_all(Granularity::Packet, &plain);
    let order = [0usize, 2, 1, 5, 4, 7];
    let mut forged = wire[9].clone();
    forged[20] ^= 0xFF;

    let mut alone = receiver(Granularity::Packet, 3, 6);
    let mut alone_session = Session::new();
    let mut mixed = receiver(Granularity::Packet, 3, 6);
    let mut mixed_session = Session::new();
    for i in order {
        let (mut a, mut b) = (wire[i].clone(), wire[i].clone());
        let answer = unprotect(&mut alone, &mut alone_session, &mut a);
        assert_eq!(unprotect(&mut mixed, &mut mixed_session, &mut b), answer);
        assert_eq!(answer, Ok(i as u64));
        assert_eq!(a, plain[i]);
        assert_eq!(b, plain[i]);
        // none of these is delivered
        for bad in [forged.clone(), wire[i].clone(), vec![0u8; 11]] {
            let before = mixed.frontier();
            assert!(unprotect(&mut mixed, &mut mixed_session, &mut bad.clone()).is_err());
            assert_eq!(mixed.frontier(), before);
        }
    }
    assert_eq!(mixed.frontier(), alone.frontier());
    assert_eq!(mixed.stats().decrypted, alone.stats().decrypted);
}

/// The steps that were not wasted are the generations up to the frontier, and
/// no catch-up goes over the cap.
#[test]
fn catchup_steps_reach_the_frontier() {
    let plain = make_plain(1, 30, 20);
    let wire = encrypt_all(Granularity::Packet, &plain);
    let mut rx = receiver(Granularity::Packet, 4, 8);
    let mut session = Session::new();
    assert_eq!(rx.stats().catchup_steps, 0);
    let mut broken = wire[6].clone();
    broken[20] ^= 0xFF;
    let run = [&wire[2], &broken, &wire[1], &wire[9], &wire[29], &wire[3], &wire[17]];
    for packet in run {
        let answer = unprotect(&mut rx, &mut session, &mut packet.clone());
        if let Ok(g) = answer {
            assert_eq!(rx.installed_generation(), Some(g));
            assert!(rx.frontier().unwrap() - g < 4);
        }
        let s = rx.stats();
        assert_eq!(
            s.catchup_steps - s.catchup_steps_wasted,
            rx.frontier().map_or(0, |f| f + 1)
        );
        assert!(s.max_catchup <= 8);
    }
    let s = rx.stats();
    assert_eq!(rx.frontier(), Some(17));
    assert_eq!(s.catchup_steps, 22);
    assert_eq!(s.catchup_steps_wasted, 4);
    assert_eq!(s.max_catchup, 8);
    assert_eq!((s.decrypted, s.drops_auth, s.drops_seek_cap, s.drops_behind), (4, 1, 1, 1));
}
