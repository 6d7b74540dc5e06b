//! The key ratchet: determinism, divergence, exact derived bytes.

use openmls_rust_crypto::OpenMlsRustCrypto;
use openmls_traits::OpenMlsProvider;
use safecast::keying::mls::SRTP_KEY_MATERIAL_LEN;
use safecast::keying::ratchet::{split_key_salt, StreamRatchet, CHAIN_SECRET_LEN};

/// A throwaway crypto provider.
fn crypto() -> OpenMlsRustCrypto {
    OpenMlsRustCrypto::default()
}

/// A fixed, obviously-not-secret seed.
fn test_seed() -> Vec<u8> {
    (0..CHAIN_SECRET_LEN as u8).collect()
}

/// The same seed gives the same generation indices and keys.
#[test]
fn ratchet_is_deterministic() {
    let provider = crypto();
    let mut a = StreamRatchet::from_seed(test_seed());
    let mut b = StreamRatchet::from_seed(test_seed());
    for expected_g in 0..8u64 {
        let (ga, ks_a) = a.next_key_salt(provider.crypto());
        let (gb, ks_b) = b.next_key_salt(provider.crypto());
        assert_eq!(ga, expected_g);
        assert_eq!(gb, expected_g);
        assert_eq!(ks_a, ks_b, "same seed must yield identical key+salt at gen {expected_g}");
    }
}

/// The key is a derived value, and each generation has another.
#[test]
fn key_salt_is_derived_and_distinct_per_generation() {
    let provider = crypto();
    let r = StreamRatchet::from_seed(test_seed());
    let ks0 = r.derive_key_salt(provider.crypto());
    let mut r1 = r.clone();
    r1.advance(provider.crypto());
    let ks1 = r1.derive_key_salt(provider.crypto());
    assert_ne!(&ks0[..], &test_seed()[..SRTP_KEY_MATERIAL_LEN]);
    assert_ne!(ks0, ks1, "key+salt must change after a chain step");
}

/// `advance` and `next_key_salt` both move one generation on, and
/// `next_key_salt` returns the generation it leaves.
#[test]
fn generation_counter_advances() {
    let provider = crypto();
    let mut r = StreamRatchet::from_seed(test_seed());
    assert_eq!(r.generation(), 0);
    r.advance(provider.crypto());
    assert_eq!(r.generation(), 1);
    let (g, _) = r.next_key_salt(provider.crypto());
    assert_eq!(g, 1);
    assert_eq!(r.generation(), 2);
}

/// Differently seeded ratchets give different keys.
#[test]
fn different_seeds_diverge() {
    let provider = crypto();
    let mut a = StreamRatchet::from_seed(test_seed());
    let mut other: Vec<u8> = test_seed();
    other[0] ^= 0xFF;
    let mut b = StreamRatchet::from_seed(other);
    let (_, ks_a) = a.next_key_salt(provider.crypto());
    let (_, ks_b) = b.next_key_salt(provider.crypto());
    assert_ne!(ks_a, ks_b, "distinct seeds must yield distinct key+salt");
}

/// The 28 bytes split into a 16-byte key and a 12-byte salt.
#[test]
fn key_salt_splits_16_12() {
    let provider = crypto();
    let r = StreamRatchet::from_seed(test_seed());
    let ks = r.derive_key_salt(provider.crypto());
    let (key, salt) = split_key_salt(&ks);
    assert_eq!(key.len(), 16);
    assert_eq!(salt.len(), 12);
    assert_eq!([key, salt].concat(), ks.to_vec());
}

/// HKDF-Expand with SHA-256, to the byte.
#[test]
fn derived_keys_are_hkdf_expand() {
    let provider = crypto();
    let mut r = StreamRatchet::from_seed(test_seed());
    let (_, ks0) = r.next_key_salt(provider.crypto());
    let (_, ks1) = r.next_key_salt(provider.crypto());
    assert_eq!(
        hex::encode(ks0),
        "9b2470c201917d64b6dfd147f30efd2a37ec1a6e293495160cb4f069"
    );
    assert_eq!(
        hex::encode(ks1),
        "4e3c701c23160230c0373fadeaa99ab32d02aaa02abf93cf3e88b531"
    );
}

/// Three steps and then four more lead where seven steps lead.
#[test]
fn chain_steps_compose() {
    let provider = crypto();
    let mut walked = StreamRatchet::from_seed(test_seed());
    for _ in 0..3 {
        walked.advance(provider.crypto());
    }
    let mut further = walked.clone();
    for _ in 0..4 {
        further.advance(provider.crypto());
    }
    let mut direct = StreamRatchet::from_seed(test_seed());
    for _ in 0..7 {
        direct.advance(provider.crypto());
    }
    assert_eq!(further.generation(), direct.generation());
    assert_eq!(
        further.derive_key_salt(provider.crypto()),
        direct.derive_key_salt(provider.crypto())
    );
    // the clone left the original where it was
    assert_eq!(walked.generation(), 3);
}
