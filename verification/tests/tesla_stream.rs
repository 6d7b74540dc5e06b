//! End-to-end TESLA: an encrypted stream with the TESLA layer around both
//! ends, through clean delivery, a lost interval, a tampered packet, a
//! too-late packet and a forged key.

use std::collections::HashSet;

use openmls::prelude::MlsGroup;
use openmls_traits::OpenMlsProvider;
use openssl::symm::{decrypt_aead, encrypt_aead, Cipher};
use safecast::keying::granularity::Granularity;
use safecast::keying::group::{create_group, join_group, read_welcome};
use safecast::keying::mls::{ssrc_from_identity, MlsMember};
use safecast::keying::ratchet::{split_key_salt, KeySalt, StreamRatchet};
use safecast::receiver::generation::GenerationScheme;
use safecast::receiver::{ReceiverKeyManager, RecvDrop, SrtpOutcome};
use safecast::simulation::sender::{SimulatedSender, StreamModel};
use safecast::tesla::commitment::TeslaCommitment;
use safecast::tesla::mac::TeslaMacAlg;
use safecast::tesla::receiver::{CommitmentRejected, TeslaDrop, TeslaReceiver};
use safecast::tesla::schedule::TeslaSchedule;
use safecast::tesla::sender::TeslaSender;
use safecast::tesla::TESLA_EXT_LEN;
use safecast::transport::rtp::RTP_HEADER_LEN;

/// The two group members: the sender creates the group, the receiver joins via
/// Welcome.
const SENDER_ID: &str = "camera-1:sender";
const RECEIVER_ID: &str = "screen-2:receiver";

/// The sender's stream identifier, derived from its identity.
fn ssrc() -> u32 {
    ssrc_from_identity(SENDER_ID)
}

/// The stream: 100-byte payloads, sent one every ~321 ns.
fn model() -> StreamModel {
    StreamModel::new(100, ssrc())
}

/// The schedule: 1 us intervals, d = 2, a 64-interval chain, no clock skew.
fn params() -> TeslaSchedule {
    TeslaSchedule::new(0, 1_000, 2, 64, 0, 16)
}

/// An AES-128-GCM session with a replay set, in the first rollover.
struct Session {
    key: Option<KeySalt>,
    seen: HashSet<u16>,
}

fn gcm_iv(packet: &[u8], salt: &[u8]) -> [u8; 12] {
    let mut iv = [0u8; 12];
    iv[2..6].copy_from_slice(&packet[8..12]);
    iv[10..12].copy_from_slice(&packet[2..4]);
    for (b, s) in iv.iter_mut().zip(salt) {
        *b ^= s;
    }
    iv
}

fn seal(key_salt: &KeySalt, packet: &mut Vec<u8>) {
    let (key, salt) = split_key_salt(key_salt);
    let iv = gcm_iv(packet, salt);
    let mut tag = [0u8; 16];
    let (header, payload) = packet.split_at(RTP_HEADER_LEN);
    let sealed =
        encrypt_aead(Cipher::aes_128_gcm(), key, Some(&iv), header, payload, &mut tag).unwrap();
    packet.truncate(RTP_HEADER_LEN);
    packet.extend_from_slice(&sealed);
    packet.extend_from_slice(&tag);
}

impl Session {
    fn unprotect(&mut self, packet: &mut Vec<u8>) -> SrtpOutcome {
        let seq = u16::from_be_bytes([packet[2], packet[3]]);
        if self.seen.contains(&seq) {
            return SrtpOutcome::Replay;
        }
        let (key, salt) = split_key_salt(self.key.as_ref().expect("no key installed"));
        let iv = gcm_iv(packet, salt);
        let body = packet.len() - 16;
        match decrypt_aead(
            Cipher::aes_128_gcm(),
            key,
            Some(&iv),
            &packet[..RTP_HEADER_LEN],
            &packet[RTP_HEADER_LEN..body],
            &packet[body..],
        ) {
            Ok(opened) => {
                packet.truncate(RTP_HEADER_LEN);
                packet.extend_from_slice(&opened);
                self.seen.insert(seq);
                SrtpOutcome::Authenticated
            }
            Err(_) => SrtpOutcome::AuthFail,
        }
    }
}

/// The receiver with its session.
struct Receiver {
    tesla: TeslaReceiver,
    session: Session,
}

impl Receiver {
    fn new(tesla: TeslaReceiver) -> Self {
        Receiver { tesla, session: Session { key: None, seen: HashSet::new() } }
    }

    fn process_arrival(&mut self, buf: &mut Vec<u8>, arrival_ns: u64) -> Result<usize, TeslaDrop> {
        let step = self.tesla.begin_arrival(buf, arrival_ns)?;
        if let Some(key) = step.install {
            self.session.key = Some(key);
        }
        let outcome = self.session.unprotect(buf);
        self.tesla.finish_arrival(outcome)
    }
}

/// A two-member MLS group, as each side sees it.
fn setup_group() -> ((MlsGroup, MlsMember), (MlsGroup, MlsMember)) {
    let sender = MlsMember::new(SENDER_ID);
    let receiver = MlsMember::new(RECEIVER_ID);
    let package = receiver.generate_key_package().key_package().clone();
    let (sender_group, welcome) =
        create_group(&sender, &vec![package]).expect("failed to create group");
    let welcome = read_welcome(&welcome).expect("expected Welcome");
    let receiver_group = join_group(&receiver, welcome).expect("welcome failed");
    ((sender_group, sender), (receiver_group, receiver))
}

/// The SRTP receiver of the stream, keyed from a ratchet.
fn inner(ratchet: StreamRatchet) -> ReceiverKeyManager {
    ReceiverKeyManager::new(
        GenerationScheme::EpochOnly,
        ssrc(),
        ratchet,
        1,    // key window: epoch-only has a single generation
        4096, // seek cap (not used at epoch-only)
        0,    // the session's default replay window
    )
}

/// One sender and one receiver, bootstrapped through MLS: the SRTP keys come
/// from each side's own group exporter, the commitment is signed with the
/// sender's MLS leaf key, and the receiver takes the sender's public key from
/// its own view of the group tree.
fn setup() -> (SimulatedSender, TeslaSender, Receiver) {
    let ((sender_group, sender_member), (receiver_group, receiver_member)) = setup_group();
    let p = params();

    // both sides derive the SRTP ratchet from their own group view
    let tx_ratchet =
        StreamRatchet::seed_from_exporter(&sender_group, sender_member.provider.crypto(), ssrc());
    let rx_ratchet = StreamRatchet::seed_from_exporter(
        &receiver_group,
        receiver_member.provider.crypto(),
        ssrc(),
    );

    // the media sender, and the TESLA sender around it
    let srtp_sender = SimulatedSender::new(model(), Granularity::EpochOnly, tx_ratchet);
    let tesla_sender = TeslaSender::new(p, TeslaMacAlg::HmacSha256);

    // the sender publishes its commitment, signed with its MLS leaf key
    let commitment = TeslaCommitment {
        anchor: *tesla_sender.anchor(),
        t0_ns: p.t0_ns,
        t_int_ns: p.t_int_ns,
        d: p.d,
        n_chain: p.n_chain,
        mac_alg: TeslaMacAlg::HmacSha256,
        sender_identity: SENDER_ID.as_bytes().to_vec(),
        ssrc: ssrc(),
        group_id: sender_group.group_id().as_slice().to_vec(),
        epoch: sender_group.epoch().as_u64(),
    };
    let signature = commitment.sign(&sender_member.signer);

    // the sender's public key in the receiver's view of the group tree
    let sender_leaf_key = receiver_group
        .members()
        .find(|m| m.credential.serialized_content() == SENDER_ID.as_bytes())
        .expect("sender must be in the receiver's group view")
        .signature_key;

    // the TESLA receiver, from the verified commitment
    let tesla_receiver = TeslaReceiver::accept(
        &commitment,
        &signature,
        &sender_leaf_key,
        receiver_member.provider.crypto(),
        p.d_t_ns,
        p.g_max,
        inner(rx_ratchet),
    )
    .ok()
    .expect("the commitment must verify");
    (srtp_sender, tesla_sender, Receiver::new(tesla_receiver))
}

/// Packet i: encrypted, then TESLA-authenticated with its send time.
fn produce(srtp: &mut SimulatedSender, tesla: &mut TeslaSender, m: &StreamModel) -> (u64, Vec<u8>) {
    let (i, mut buf, _) = srtp.next_packet();
    seal(srtp.installed_key(), &mut buf);
    tesla.authenticate(&mut buf, i, m.send_ns(i));
    (i, buf)
}

/// Every packet is delivered and none flagged; all but the packets of the last
/// d intervals get their verdict.
#[test]
fn clean_run_verifies_everything() {
    let m = model();
    let (mut srtp, mut tesla, mut rx) = setup();
    let n = 40;

    for _ in 0..n {
        let (i, mut buf) = produce(&mut srtp, &mut tesla, &m);
        // arriving 100 ns after being sent
        rx.process_arrival(&mut buf, m.send_ns(i) + 100)
            .expect("clean packet must be delivered");
        // the decrypted payload is the model's plaintext for packet i
        assert_eq!(buf, m.plain_packet(i));
    }

    let s = rx.tesla.stats();
    // every packet was delivered, none looked forged
    assert_eq!(s.delivered, n);
    assert_eq!(s.forged, 0);
    // every packet either got its verdict or waits in the final d intervals
    assert_eq!(s.verified + rx.tesla.unsettled(), n);
    assert!(rx.tesla.unsettled() > 0, "the last d intervals cannot settle");
    // verdicts arrive roughly d intervals after the packet
    let max = *s.latencies_ns.iter().max().unwrap();
    assert!(max <= (params().d as u64 + 1) * params().t_int_ns);
}

/// Every packet of one interval is lost, with its key disclosures. The next
/// interval's disclosure proves two keys at once.
#[test]
fn lost_interval_recovers() {
    let m = model();
    let (mut srtp, mut tesla, mut rx) = setup();

    let mut delivered = 0u64;
    for _ in 0..40 {
        let (i, mut buf) = produce(&mut srtp, &mut tesla, &m);
        // every packet of interval 4 is lost: they carried key 2
        let send = m.send_ns(i);
        if (3_000..4_000).contains(&send) {
            continue;
        }
        rx.process_arrival(&mut buf, send + 100)
            .expect("surviving packets must be delivered");
        delivered += 1;
    }

    let s = rx.tesla.stats();
    assert_eq!(s.delivered, delivered);
    assert_eq!(s.forged, 0);
    assert_eq!(s.verified + rx.tesla.unsettled(), delivered);
}

/// One packet's MAC is flipped in flight: the outer layer still accepts it, but
/// at settlement it is flagged as forged.
#[test]
fn flipped_mac_flagged_as_forged() {
    let m = model();
    let (mut srtp, mut tesla, mut rx) = setup();

    for _ in 0..40 {
        let (i, mut buf) = produce(&mut srtp, &mut tesla, &m);
        // the last byte is inside the MAC field
        if i == 5 {
            *buf.last_mut().unwrap() ^= 0xFF;
        }
        rx.process_arrival(&mut buf, m.send_ns(i) + 100)
            .expect("the tampered packet still passes the outer filter");
    }

    let s = rx.tesla.stats();
    // the tampered packet fails its verdict
    assert_eq!(s.forged, 1);
    // everything else settles or waits as usual
    assert_eq!(s.verified + s.forged + rx.tesla.unsettled(), s.delivered);
}

/// A packet held back until after its key's disclosure moment is rejected.
#[test]
fn late_packet_rejected_unsafe() {
    let m = model();
    let (mut srtp, mut tesla, mut rx) = setup();

    let (i, mut buf) = produce(&mut srtp, &mut tesla, &m);
    // packet of interval 1, arriving at 5 us: the sender is far past interval 3
    assert_eq!(
        rx.process_arrival(&mut buf, 5_000),
        Err(TeslaDrop::UnsafeLate)
    );
    let _ = i;
    // the packet never reached the SRTP layer
    assert_eq!(rx.tesla.stats().delivered, 0);
    assert_eq!(rx.tesla.inner_stats().decrypted, 0);
}

/// A packet whose disclosed key was altered is dropped, and teaches nothing.
#[test]
fn altered_disclosure_is_dropped() {
    let m = model();
    let (mut srtp, mut tesla, mut rx) = setup();
    let mut dropped = 0;
    for _ in 0..40 {
        let (i, mut buf) = produce(&mut srtp, &mut tesla, &m);
        // packet 10 is the first of interval 4, and so the first to carry key 2
        if i == 10 {
            let at = buf.len() - TESLA_EXT_LEN + 4;
            buf[at] ^= 0xFF;
        }
        match rx.process_arrival(&mut buf, m.send_ns(i) + 100) {
            Ok(_) => {}
            Err(drop) => {
                assert_eq!(drop, TeslaDrop::BadDisclosure);
                assert_eq!(i, 10);
                dropped += 1;
            }
        }
    }
    let s = rx.tesla.stats();
    assert_eq!(dropped, 1);
    assert_eq!(s.drops_bad_disclosure, 1);
    assert_eq!(s.delivered, 39);
    assert_eq!(s.forged, 0);
    assert_eq!(s.verified + rx.tesla.unsettled(), 39);
}

/// Datagrams without an extension or an RTP header are malformed; a forged
/// ciphertext and a duplicate are the SRTP layer's to reject. Each datagram is
/// counted once.
#[test]
fn every_datagram_gets_one_answer() {
    let m = model();
    let (mut srtp, mut tesla, mut rx) = setup();
    assert_eq!(
        rx.process_arrival(&mut vec![0u8; TESLA_EXT_LEN], 0),
        Err(TeslaDrop::Malformed)
    );
    assert_eq!(
        rx.process_arrival(&mut vec![0u8; TESLA_EXT_LEN + 11], 0),
        Err(TeslaDrop::Malformed)
    );
    let (i, buf) = produce(&mut srtp, &mut tesla, &m);
    let arrival = m.send_ns(i) + 100;
    let mut forged = buf.clone();
    forged[40] ^= 0xFF;
    assert_eq!(
        rx.process_arrival(&mut forged, arrival),
        Err(TeslaDrop::Srtp(RecvDrop::AuthFail))
    );
    assert_eq!(rx.process_arrival(&mut buf.clone(), arrival), Ok(0));
    assert_eq!(
        rx.process_arrival(&mut buf.clone(), arrival),
        Err(TeslaDrop::Srtp(RecvDrop::SrtpReplay))
    );
    let s = rx.tesla.stats();
    assert_eq!(s.drops_malformed, 2);
    assert_eq!(s.drops_srtp, 2);
    assert_eq!(s.delivered, 1);
    assert_eq!(rx.tesla.unsettled(), 1);
    assert_eq!(s.peak_pending, 1);
}

/// A clock that runs back is noticed exactly where a packet would be verified
/// that arrived later than the one that brings its key.
#[test]
fn a_clock_that_runs_back_is_noticed() {
    let m = model();
    let (mut srtp, mut tesla, mut rx) = setup();
    let (_, mut first) = produce(&mut srtp, &mut tesla, &m);
    let (_, mut second) = produce(&mut srtp, &mut tesla, &m);
    rx.process_arrival(&mut first, 900).expect("must be delivered");
    // an earlier arrival that verifies nothing is delivered like any other
    rx.tesla.begin_arrival(&mut second, 800).expect("must be taken in");
    assert_eq!(rx.session.unprotect(&mut second), SrtpOutcome::Authenticated);
    assert_eq!(rx.tesla.try_finish_arrival(SrtpOutcome::Authenticated), Some(Ok(0)));
    assert_eq!(rx.tesla.unsettled(), 2);

    // the packet that discloses the first interval's key comes "before" them
    let mut bearer = loop {
        let (i, buf) = produce(&mut srtp, &mut tesla, &m);
        if params().interval_of(m.send_ns(i)) == 1 + params().d {
            break buf;
        }
    };
    let step = rx.tesla.begin_arrival(&mut bearer, 850).expect("must be taken in");
    if let Some(key) = step.install {
        rx.session.key = Some(key);
    }
    assert_eq!(rx.session.unprotect(&mut bearer), SrtpOutcome::Authenticated);
    assert_eq!(rx.tesla.try_finish_arrival(SrtpOutcome::Authenticated), None);
    // nothing has changed, and the packet is still owed its verdict
    assert_eq!(rx.tesla.stats().delivered, 2);
    assert_eq!(rx.tesla.unsettled(), 2);
    assert_eq!(
        rx.tesla.try_finish_arrival(SrtpOutcome::AuthFail),
        Some(Err(TeslaDrop::Srtp(RecvDrop::AuthFail)))
    );
    // the next one comes after both and verifies both
    let (_, mut next) = produce(&mut srtp, &mut tesla, &m);
    assert_eq!(rx.process_arrival(&mut next, 900), Ok(2));
    assert_eq!(rx.tesla.stats().latencies_ns, vec![0, 100]);
}

/// A commitment is accepted only with the sender's signature and a schedule
/// that can be run.
#[test]
fn bad_commitments_are_rejected() {
    let member = MlsMember::new(SENDER_ID);
    let commitment = TeslaCommitment {
        anchor: [7u8; 20],
        t0_ns: 0,
        t_int_ns: 1_000,
        d: 2,
        n_chain: 64,
        mac_alg: TeslaMacAlg::HmacSha256,
        sender_identity: SENDER_ID.as_bytes().to_vec(),
        ssrc: ssrc(),
        group_id: vec![1],
        epoch: 0,
    };
    let accept = |c: &TeslaCommitment, signature: &[u8], g_max: u32| {
        TeslaReceiver::accept(
            c,
            signature,
            &member.signer.to_public_vec(),
            member.provider.crypto(),
            0,
            g_max,
            inner(StreamRatchet::from_seed(vec![0; 32])),
        )
        .err()
    };
    let signature = commitment.sign(&member.signer);
    assert_eq!(accept(&commitment, &signature, 16), None);
    assert_eq!(
        accept(&commitment, &signature[1..], 16),
        Some(CommitmentRejected::BadSignature)
    );
    assert_eq!(
        accept(&commitment, &signature, 0),
        Some(CommitmentRejected::BadSchedule)
    );
    let hasty = TeslaCommitment { d: 1, ..commitment.clone() };
    let signature = hasty.sign(&member.signer);
    assert_eq!(
        accept(&hasty, &signature, 16),
        Some(CommitmentRejected::BadSchedule)
    );
}

/// After every datagram the books balance: what was delivered is verified, is
/// forged or waits, and the answer says how many got their verdict.
#[test]
fn the_books_balance_after_every_datagram() {
    let m = model();
    let (mut srtp, mut tesla, mut rx) = setup();
    let mut datagrams = 0u64;
    for n in 0..60 {
        let (i, mut buf) = produce(&mut srtp, &mut tesla, &m);
        let arrival = m.send_ns(i) + 100;
        if n % 7 == 3 {
            // a broken MAC, which shows only with its key
            let at = buf.len() - 1;
            buf[at] ^= 0xFF;
        }
        if n % 11 == 5 {
            buf.truncate(20);
        }
        let settled = rx.tesla.stats().verified + rx.tesla.stats().forged;
        let delivered = rx.tesla.stats().delivered;
        let answer = rx.process_arrival(&mut buf, arrival);
        datagrams += 1;
        let s = rx.tesla.stats();
        assert_eq!(s.verified + s.forged + rx.tesla.unsettled(), s.delivered);
        assert_eq!(s.latencies_ns.len() as u64, s.verified);
        assert!(s.peak_pending >= rx.tesla.unsettled());
        assert_eq!(
            s.delivered + s.drops_malformed + s.drops_unsafe + s.drops_bad_disclosure
                + s.drops_srtp,
            datagrams
        );
        match answer {
            Ok(k) => {
                assert_eq!(s.delivered, delivered + 1);
                assert_eq!(s.verified + s.forged, settled + k as u64);
            }
            Err(_) => {
                assert_eq!(s.delivered, delivered);
                assert_eq!(s.verified + s.forged, settled);
            }
        }
    }
    assert!(rx.tesla.stats().verified > 0);
    assert!(rx.tesla.stats().forged > 0);
    assert!(rx.tesla.stats().drops_malformed > 0);
}
