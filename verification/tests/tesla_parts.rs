//! TESLA's parts: key chain, MAC, commitment, schedule, extension, sender.

use openmls_basic_credential::SignatureKeyPair;
use openmls_rust_crypto::OpenMlsRustCrypto;
use openmls_traits::types::SignatureScheme;
use openmls_traits::OpenMlsProvider;
use openssl::symm::{encrypt_aead, Cipher};
use safecast::tesla::chain::{
    f_step, mac_key, ChainVerifier, Disclosure, TeslaChain, TESLA_KEY_LEN,
};
use safecast::tesla::commitment::TeslaCommitment;
use safecast::tesla::mac::{TeslaMacAlg, TESLA_MAC_LEN};
use safecast::tesla::schedule::{IntervalCheck, TeslaSchedule};
use safecast::tesla::sender::TeslaSender;
use safecast::tesla::{append_extension, split_extension, TESLA_EXT_LEN};

/// A chain of n media intervals, built from a fixed final key.
fn test_chain(n: u32) -> TeslaChain {
    TeslaChain::from_final_key([7u8; TESLA_KEY_LEN], n)
}

/// No loss: the sender discloses K_1 to K_8 one after the other, and a
/// receiver that knows only K_0 accepts every one of them.
#[test]
fn chain_roundtrip() {
    let chain = test_chain(8);
    let mut v = ChainVerifier::new(*chain.anchor(), 8, 16);
    for i in 1..=8 {
        match v.check(chain.key(i), i) {
            // the new key is the only one returned
            Disclosure::New(keys) => {
                assert_eq!(keys, vec![(i, *chain.key(i))]);
            }
            other => panic!("key {i} should verify, got {other:?}"),
        }
    }
}

/// The first disclosure the receiver ever sees is K_4: that call proves K_4
/// and hands back the three missed keys.
#[test]
fn gap_recovery() {
    let chain = test_chain(8);
    let mut v = ChainVerifier::new(*chain.anchor(), 8, 16);
    match v.check(chain.key(4), 4) {
        Disclosure::New(keys) => {
            let expect: Vec<_> = (1..=4).map(|i| (i, *chain.key(i))).collect();
            assert_eq!(keys, expect);
        }
        other => panic!("expected New, got {other:?}"),
    }
    // trust has advanced to K_4
    assert_eq!(v.trusted_index(), 4);
    // a disclosure of K_3 arriving late now brings nothing new
    assert_eq!(v.check(chain.key(3), 3), Disclosure::NotNew);
    assert_eq!(v.trusted_index(), 4);
}

/// A made-up value claiming to be K_3 is rejected, and the receiver keeps its
/// state for the genuine key.
#[test]
fn tampered_key_rejected() {
    let chain = test_chain(8);
    let mut v = ChainVerifier::new(*chain.anchor(), 8, 16);
    let mut bad = *chain.key(3);
    bad[0] ^= 0xFF;
    assert_eq!(v.check(&bad, 3), Disclosure::Invalid);
    // trust still sits at the anchor
    assert_eq!(v.trusted_index(), 0);
    // so the genuine K_3 still verifies
    assert!(matches!(v.check(chain.key(3), 3), Disclosure::New(_)));
}

/// A key past the chain's end, or further ahead than the cap on hash work, is
/// not considered.
#[test]
fn keys_out_of_range_are_not_considered() {
    let chain = test_chain(40);
    let mut v = ChainVerifier::new(*chain.anchor(), 40, 16);
    assert_eq!(v.check(chain.key(40), 41), Disclosure::BeyondChain);
    assert_eq!(v.check(chain.key(17), 17), Disclosure::TooFarAhead);
    assert!(matches!(v.check(chain.key(16), 16), Disclosure::New(_)));
    assert!(matches!(v.check(chain.key(17), 17), Disclosure::New(_)));
}

/// One chain step and the MAC-key derivation, to the byte.
#[test]
fn chain_functions_are_hmac_sha256() {
    let key = [7u8; TESLA_KEY_LEN];
    assert_eq!(hex::encode(f_step(&key)), "436101a158bd163a41f935d6761708ef126ddc4e");
    assert_eq!(
        hex::encode(mac_key(&key, 32)),
        "1cd5a3a5cbf7831a6dd9f186e5c1f5bdf911aee3c765d5e53613db669a8469c9"
    );
    assert_eq!(hex::encode(mac_key(&key, 16)), "1cd5a3a5cbf7831a6dd9f186e5c1f5bd");
    // every key of a chain leads down to the one before it
    let chain = test_chain(3);
    assert_eq!(chain.key(3), &key);
    for i in 0..3 {
        assert_eq!(chain.key(i), &f_step(chain.key(i + 1)));
    }
    assert_eq!(chain.anchor(), chain.key(0));
}

/// A generated chain is a chain, and another one each time.
#[test]
fn generated_chains_differ() {
    let a = TeslaChain::generate(4);
    let b = TeslaChain::generate(4);
    for i in 0..4 {
        assert_eq!(a.key(i), &f_step(a.key(i + 1)));
    }
    assert_ne!(a.anchor(), b.anchor());
}

/// An example commitment (the field values are arbitrary).
fn commitment() -> TeslaCommitment {
    TeslaCommitment {
        anchor: [7u8; 20],
        t0_ns: 0,
        t_int_ns: 1_000_000,
        d: 2,
        n_chain: 64,
        mac_alg: TeslaMacAlg::HmacSha256,
        sender_identity: b"camera-1:sender".to_vec(),
        ssrc: 0x1234,
        group_id: b"studio-group".to_vec(),
        epoch: 3,
    }
}

/// The commitment verifies under the sender's key; a changed field or another
/// key is rejected.
#[test]
fn sign_verify_and_tamper() {
    let provider = OpenMlsRustCrypto::default();
    let signer =
        SignatureKeyPair::new(SignatureScheme::ED25519).expect("key generation failed");

    // the sender signs its commitment
    let c = commitment();
    let sig = c.sign(&signer);

    // the receiver verifies it against the sender's public key
    assert!(c.verify(&sig, &signer.to_public_vec(), provider.crypto()));

    // a tampered field (the MAC algorithm swapped) breaks the signature
    let mut altered = c.clone();
    altered.mac_alg = TeslaMacAlg::GmacAes128;
    assert!(!altered.verify(&sig, &signer.to_public_vec(), provider.crypto()));

    // a signature by some other key is rejected
    let other =
        SignatureKeyPair::new(SignatureScheme::ED25519).expect("key generation failed");
    assert!(!c.verify(&sig, &other.to_public_vec(), provider.crypto()));
}

/// Every field has its place in the signed bytes.
#[test]
fn every_field_changes_the_signed_bytes() {
    let base = commitment();
    let mut all = vec![base.to_bytes()];
    let mut push = |change: fn(&mut TeslaCommitment)| {
        let mut c = commitment();
        change(&mut c);
        all.push(c.to_bytes());
    };
    push(|c| c.anchor[19] ^= 1);
    push(|c| c.t0_ns = 1);
    push(|c| c.t_int_ns += 1);
    push(|c| c.d = 3);
    push(|c| c.n_chain = 65);
    push(|c| c.mac_alg = TeslaMacAlg::GmacAes128);
    push(|c| c.sender_identity = b"camera-1:sendeR".to_vec());
    push(|c| c.ssrc = 0x1235);
    push(|c| c.group_id = b"studio-grouq".to_vec());
    push(|c| c.epoch = 4);
    // a byte moved from one variable field into the next
    push(|c| {
        c.sender_identity.pop();
        c.group_id.insert(0, b'r');
    });
    for i in 0..all.len() {
        for j in 0..i {
            assert_ne!(all[i], all[j], "changes {i} and {j}");
        }
    }
}

/// The schedule that a commitment announces.
#[test]
fn commitment_gives_its_schedule() {
    let s = commitment().schedule(7, 9);
    assert_eq!(s.t0_ns, 0);
    assert_eq!(s.t_int_ns, 1_000_000);
    assert_eq!(s.d, 2);
    assert_eq!(s.n_chain, 64);
    assert_eq!(s.d_t_ns, 7);
    assert_eq!(s.g_max, 9);
}

/// The two MAC algorithms.
fn algs() -> [TeslaMacAlg; 2] {
    [TeslaMacAlg::HmacSha256, TeslaMacAlg::GmacAes128]
}

/// The same inputs give the same tag; any changed input gives another.
#[test]
fn deterministic_and_input_sensitive() {
    let chain_key = [5u8; TESLA_KEY_LEN];
    let packet: Vec<u8> = (0u8..64).collect();
    for alg in algs() {
        // the reference tag: index 7, the packet above
        let p = alg.prepare(&chain_key);
        let t = p.tag(7, &packet);
        assert_eq!(t, p.tag(7, &packet), "{alg:?} must be deterministic");
        // the receiver's own state computes the same tag
        assert_eq!(t, alg.prepare(&chain_key).tag(7, &packet));

        // flipping one payload byte changes the tag
        let mut other = packet.clone();
        other[10] ^= 1;
        assert_ne!(t, p.tag(7, &other), "{alg:?} must bind the packet");

        // the same packet one sequence-number wrap later changes the tag
        assert_ne!(
            t,
            p.tag(7 + (1 << 16), &packet),
            "{alg:?} must bind the ROC"
        );

        // a different interval key changes the tag
        let p2 = alg.prepare(&[6u8; TESLA_KEY_LEN]);
        assert_ne!(t, p2.tag(7, &packet), "{alg:?} must bind the key");
    }
}

/// Both tags, to the byte.
#[test]
fn tags_are_truncated_macs() {
    let chain_key = [5u8; TESLA_KEY_LEN];
    let packet: Vec<u8> = (0u8..64).collect();
    let p = TeslaMacAlg::HmacSha256.prepare(&chain_key);
    assert_eq!(hex::encode(p.tag(7, &packet)), "dc65ff33038657e37927");
    assert_eq!(hex::encode(p.tag(7 + (1 << 16), &packet)), "857857cc0c9d845d7cad");
    // GMAC: AES-128-GCM over no plaintext, the position as the nonce
    let key = mac_key(&chain_key, TeslaMacAlg::GmacAes128.mac_key_len());
    let mut nonce = [0u8; 12];
    nonce[4..].copy_from_slice(&7u64.to_be_bytes());
    let mut tag = [0u8; 16];
    encrypt_aead(Cipher::aes_128_gcm(), &key, Some(&nonce), &packet, &[], &mut tag).unwrap();
    let p = TeslaMacAlg::GmacAes128.prepare(&chain_key);
    assert_eq!(p.tag(7, &packet)[..], tag[..TESLA_MAC_LEN]);
    assert_eq!(TeslaMacAlg::HmacSha256.mac_key_len(), 32);
    assert_eq!(TeslaMacAlg::GmacAes128.mac_key_len(), 16);
}

/// The receiver reads the interval, key and MAC that the sender wrote, and is
/// left with the untouched packet.
#[test]
fn extension_roundtrip() {
    // stand-in for a protected SRTP packet
    let packet: Vec<u8> = (0u8..100).collect();
    let mut buf = packet.clone();

    // the sender appends an extension with recognizable values
    let disclosed = [0xAB; TESLA_KEY_LEN];
    let mac = [0xCD; TESLA_MAC_LEN];
    append_extension(&mut buf, 0x01020304, &disclosed, &mac);
    // the extension added exactly its 34 bytes
    assert_eq!(buf.len(), packet.len() + TESLA_EXT_LEN);

    // the receiver strips it again
    let (i, d, m) = split_extension(&mut buf).expect("extension present");
    assert_eq!(i, 0x01020304);
    assert_eq!(d, disclosed);
    assert_eq!(m, mac);
    assert_eq!(buf, packet);
}

/// A datagram that is no longer than an extension has none.
#[test]
fn short_datagrams_carry_no_extension() {
    let mut buf = vec![0u8; TESLA_EXT_LEN];
    assert!(split_extension(&mut buf).is_none());
    assert_eq!(buf.len(), TESLA_EXT_LEN);
    let mut buf = vec![0u8; TESLA_EXT_LEN + 1];
    assert!(split_extension(&mut buf).is_some());
    assert_eq!(buf.len(), 1);
}

/// T_int = 1 s, d = 2, D_t = 0.1 s.
fn params() -> TeslaSchedule {
    TeslaSchedule::new(0, 1_000_000_000, 2, 100, 100_000_000, 16)
}

/// A packet of interval 6 is safe only while the sender cannot yet be in
/// interval 8, which starts at 7 s.
#[test]
fn safety_boundaries() {
    let p = params();
    // arrival at 6.4 s: the sender's clock reads at most 6.5 s
    assert_eq!(p.accepts(6_400_000_000, 6), IntervalCheck::Safe);
    // arrival at 7.2 s: the sender's clock reads at most 7.3 s
    assert_eq!(p.accepts(7_200_000_000, 6), IntervalCheck::UnsafeLate);
}

/// Send times map to intervals, and intervals to the keys they disclose.
#[test]
fn interval_assignment_and_disclosure() {
    let p = params();
    // sends at 0 s and just under 1 s: both in interval 1
    assert_eq!(p.interval_of(0), 1);
    assert_eq!(p.interval_of(999_999_999), 1);
    // a send at exactly 1 s: the first packet of interval 2
    assert_eq!(p.interval_of(1_000_000_000), 2);
    // intervals 1 and 2 carry K_0; interval 3 is the first to disclose a key
    assert_eq!(p.disclosed_index(1), 0);
    assert_eq!(p.disclosed_index(2), 0);
    assert_eq!(p.disclosed_index(3), 1);
}

/// The exact moment at which a packet stops being safe.
#[test]
fn safety_turns_exactly_at_disclosure() {
    let p = params();
    // at 6.4 s the sender's clock reads at most 6.5 s: interval 7
    assert_eq!(p.sender_upper_bound(6_400_000_000), 7);
    assert_eq!(p.sender_upper_bound(0), 1);
    assert_eq!(p.accepts(6_899_999_999, 6), IntervalCheck::Safe);
    assert_eq!(p.accepts(6_900_000_000, 6), IntervalCheck::UnsafeLate);
}

/// A packet's MAC key is disclosed d intervals later, proves genuine against
/// the anchor, and verifies the packet.
#[test]
fn receiver_can_verify_sender_output() {
    // 1 ms intervals, d = 2, a 10-interval chain
    let params = TeslaSchedule::new(0, 1_000_000, 2, 10, 0, 16);
    let mut sender = TeslaSender::new(params, TeslaMacAlg::HmacSha256);
    // the receiver's side of the chain, started from the anchor
    let mut verifier = ChainVerifier::new(*sender.anchor(), 10, 16);

    // packet 0, sent at 0.5 ms: belongs to interval 1
    let mut p0: Vec<u8> = (0u8..60).collect();
    sender.authenticate(&mut p0, 0, 500_000);
    let (i0, k0, mac0) = split_extension(&mut p0).expect("extension present");
    assert_eq!(i0, 1);
    // intervals 1 and 2 disclose only the anchor
    assert_eq!(verifier.check(&k0, params.disclosed_index(i0)), Disclosure::NotNew);

    // packet 1, sent at 2.5 ms: belongs to interval 3, and discloses key 1
    let mut p1: Vec<u8> = (100u8..160).collect();
    sender.authenticate(&mut p1, 1, 2_500_000);
    let (i1, k1, _mac1) = split_extension(&mut p1).expect("extension present");
    assert_eq!(i1, 3);
    // the disclosed key must prove genuine against the anchor
    let recovered = match verifier.check(&k1, params.disclosed_index(i1)) {
        Disclosure::New(keys) => keys,
        other => panic!("key 1 should verify, got {other:?}"),
    };
    assert_eq!(recovered.len(), 1);
    let (idx, key1) = recovered[0];
    assert_eq!(idx, 1);

    // with key 1 in hand, the held-back interval-1 packet verifies
    let recomputed = TeslaMacAlg::HmacSha256.prepare(&key1).tag(0, &p0);
    assert_eq!(recomputed, mac0);
}

/// Appending the extension that was stripped gives the datagram back.
#[test]
fn stripped_extension_round_trip() {
    let datagram: Vec<u8> = (0..60u8).map(|b| b.wrapping_mul(37)).collect();
    let mut buf = datagram.clone();
    let (interval, disclosed, mac) = split_extension(&mut buf).expect("extension present");
    assert_eq!(buf.len(), 60 - TESLA_EXT_LEN);
    append_extension(&mut buf, interval, &disclosed, &mac);
    assert_eq!(buf, datagram);
}
