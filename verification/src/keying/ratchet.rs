//! Per-stream key ratchet for fine-grained forward secrecy.
//!
//! The MLS group hands out one fresh secret per epoch. Each epoch is divided
//! into generations `g = 0, 1, 2, ...`, and each generation has its own SRTP
//! key. Generation `g` has a secret `S_g`, which is expanded twice and then
//! discarded:
//!
//! ```text
//! S_{g+1}                  = HKDF-Expand(S_g, "next generation",   32)
//! SRTP key(16) || salt(12) = HKDF-Expand(S_g, "srtp key material", 28)
//! ```
//!
//! Only `S_g` carries forward. `S_0` is seeded each epoch from the MLS
//! exporter, bound to the epoch and the SSRC. One ratchet serves one SSRC and
//! one sender.

use openmls::prelude::MlsGroup;
use openmls_rust_crypto::RustCrypto;
use vstd::prelude::*;

use crate::bytes::array_at;
use crate::crypto::{export_secret, hkdf_expand};
use crate::keying::mls::{build_exporter_context, AES_128_GCM_KEY_LEN, SRTP_KEY_MATERIAL_LEN};

verus! {

/// HKDF-Expand `info` label for the forward chain step (`S_g -> S_{g+1}`).
pub const CHAIN_LABEL: &'static str = "next generation";

/// HKDF-Expand `info` label for the per-generation SRTP key and salt.
pub const KEY_MATERIAL_LABEL: &'static str = "srtp key material";

/// Chain-secret length in bytes: one SHA-256 output.
pub const CHAIN_SECRET_LEN: usize = 32;

/// MLS exporter label used to seed `S_0` at each epoch.
pub const SRTP_RATCHET_SEED_LABEL: &'static str = "SRTP ratchet seed";

/// The per-generation SRTP session key and salt: `key(16) || salt(12)`.
pub type KeySalt = [u8; SRTP_KEY_MATERIAL_LEN];

/// One chain step: `S_{g+1}` out of `S_g`.
pub open spec fn next_secret(secret: Seq<u8>) -> Seq<u8> {
    crate::crypto::hkdf_expand_sha256(
        secret,
        crate::bytes::text_bytes(CHAIN_LABEL@),
        CHAIN_SECRET_LEN as nat,
    )
}

/// The SRTP key and salt of the generation whose secret this is.
pub open spec fn key_salt_of(secret: Seq<u8>) -> Seq<u8> {
    crate::crypto::hkdf_expand_sha256(
        secret,
        crate::bytes::text_bytes(KEY_MATERIAL_LABEL@),
        SRTP_KEY_MATERIAL_LEN as nat,
    )
}

/// The secret `steps` chain steps after `secret`.
pub open spec fn secret_after(secret: Seq<u8>, steps: nat) -> Seq<u8>
    decreases steps,
{
    if steps == 0 {
        secret
    } else {
        next_secret(secret_after(secret, (steps - 1) as nat))
    }
}

/// The key and salt `steps` generations after the one whose secret this is.
pub open spec fn key_salt_after(secret: Seq<u8>, steps: nat) -> Seq<u8> {
    key_salt_of(secret_after(secret, steps))
}

/// Law: walking the chain `a` steps and then `b` more is walking it `a + b`
/// steps. Two ends that share a secret agree on every later one.
pub proof fn law_chain_steps_add(secret: Seq<u8>, a: nat, b: nat)
    ensures
        secret_after(secret_after(secret, a), b) == secret_after(secret, a + b),
    decreases b,
{
    if b > 0 {
        law_chain_steps_add(secret, a, (b - 1) as nat);
        assert((a + b - 1) as nat == a + (b - 1) as nat);
    }
}

/// The seed `S_0` that a group's epoch exports for a stream.
pub open spec fn exported_seed(group: MlsGroup, ssrc: u32) -> Seq<u8> {
    crate::crypto::mls_exporter(
        crate::crypto::exporter_state(group),
        SRTP_RATCHET_SEED_LABEL@,
        crate::bytes::be32(ssrc),
        CHAIN_SECRET_LEN as nat,
    )
}

/// Law: two members that share an epoch's exporter state seed the same ratchet
/// for a stream, and so derive the same key for each of its generations.
pub proof fn law_members_derive_the_same_keys(
    a: MlsGroup,
    b: MlsGroup,
    ssrc: u32,
    generation: nat,
)
    requires
        crate::crypto::exporter_state(a) == crate::crypto::exporter_state(b),
    ensures
        exported_seed(a, ssrc) == exported_seed(b, ssrc),
        key_salt_after(exported_seed(a, ssrc), generation) == key_salt_after(
            exported_seed(b, ssrc),
            generation,
        ),
{
}

/// A forward-only hash ratchet for one SRTP stream within one MLS epoch. Holds
/// the current chain secret `S_g` and the generation index `g`.
pub struct StreamRatchet {
    chain_secret: Vec<u8>,
    generation: u64,
}

impl StreamRatchet {
    /// The current chain secret `S_g`.
    pub closed spec fn secret(&self) -> Seq<u8> {
        self.chain_secret@
    }

    /// The current generation index `g`.
    pub closed spec fn index(&self) -> u64 {
        self.generation
    }

    /// The chain secret has the length that HKDF needs.
    pub open spec fn wf(&self) -> bool {
        self.secret().len() == CHAIN_SECRET_LEN
    }

    /// Builds a ratchet at generation 0 from a raw seed `S_0`.
    pub fn from_seed(seed: Vec<u8>) -> (r: Self)
        requires
            seed@.len() == CHAIN_SECRET_LEN,
        ensures
            r.wf(),
            r.secret() == seed@,
            r.index() == 0,
    {
        StreamRatchet { chain_secret: seed, generation: 0 }
    }

    /// Seeds `S_0` from an MLS group's exporter for the given SSRC.
    ///
    /// The exporter changes every epoch and the SSRC is bound into its
    /// context, so the seed is unique per epoch and stream. The members of a
    /// group derive the same seed, hence the same keys.
    pub fn seed_from_exporter(group: &MlsGroup, crypto: &RustCrypto, ssrc: u32) -> (r: Self)
        requires
            crate::crypto::group_active(*group),
        ensures
            r.wf(),
            r.secret() == exported_seed(*group, ssrc),
            r.index() == 0,
    {
        let context = build_exporter_context(ssrc);
        proof {
            reveal_strlit("SRTP ratchet seed");
        }
        let seed = export_secret(
            group,
            crypto,
            SRTP_RATCHET_SEED_LABEL,
            context.as_slice(),
            CHAIN_SECRET_LEN,
        );
        Self::from_seed(seed)
    }

    /// Current generation index `g`.
    pub fn generation(&self) -> (r: u64)
        ensures
            r == self.index(),
    {
        self.generation
    }

    /// Derives the current generation's SRTP key and salt, without advancing
    /// the chain.
    pub fn derive_key_salt(&self, crypto: &RustCrypto) -> (r: KeySalt)
        requires
            self.wf(),
        ensures
            r@ == key_salt_of(self.secret()),
            r@ == crate::crypto::hkdf_expand_sha256(
                self.secret(),
                crate::bytes::text_bytes("srtp key material"@),
                28,
            ),
    {
        let out = hkdf_expand(
            crypto,
            self.chain_secret.as_slice(),
            KEY_MATERIAL_LABEL.as_bytes(),
            SRTP_KEY_MATERIAL_LEN,
        );
        assert(out@.subrange(0, SRTP_KEY_MATERIAL_LEN as int) =~= out@);
        array_at(out.as_slice(), 0)
    }

    /// Advances the chain one step: `S_g -> S_{g+1}`. The old secret is
    /// overwritten.
    pub fn advance(&mut self, crypto: &RustCrypto)
        requires
            old(self).wf(),
            old(self).index() < u64::MAX,
        ensures
            final(self).wf(),
            final(self).secret() == next_secret(old(self).secret()),
            final(self).secret() == crate::crypto::hkdf_expand_sha256(
                old(self).secret(),
                crate::bytes::text_bytes("next generation"@),
                32,
            ),
            final(self).index() == old(self).index() + 1,
    {
        let next = hkdf_expand(
            crypto,
            self.chain_secret.as_slice(),
            CHAIN_LABEL.as_bytes(),
            CHAIN_SECRET_LEN,
        );
        self.chain_secret = next;
        self.generation = self.generation + 1;
    }

    /// Derives the current generation's key and salt, then advances the chain.
    /// Returns `(g, key and salt)` and leaves the ratchet at generation `g + 1`.
    pub fn next_key_salt(&mut self, crypto: &RustCrypto) -> (r: (u64, KeySalt))
        requires
            old(self).wf(),
            old(self).index() < u64::MAX,
        ensures
            r.0 == old(self).index(),
            r.1@ == key_salt_of(old(self).secret()),
            final(self).wf(),
            final(self).secret() == next_secret(old(self).secret()),
            final(self).index() == old(self).index() + 1,
    {
        let g: u64 = self.generation;
        let key_salt = self.derive_key_salt(crypto);
        self.advance(crypto);
        (g, key_salt)
    }
}

impl Clone for StreamRatchet {
    fn clone(&self) -> (r: Self)
        ensures
            r.secret() == self.secret(),
            r.index() == self.index(),
    {
        let chain_secret = self.chain_secret.clone();
        assert(chain_secret@ =~= self.chain_secret@);
        StreamRatchet { chain_secret, generation: self.generation }
    }
}

/// Splits the key material into its 16-byte key and its 12-byte salt.
pub fn split_key_salt(key_salt: &KeySalt) -> (r: (&[u8], &[u8]))
    ensures
        r.0@ == key_salt@.subrange(0, 16),
        r.1@ == key_salt@.subrange(16, 28),
{
    key_salt.as_slice().split_at(AES_128_GCM_KEY_LEN)
}

/// Law: the chain is HKDF-Expand under its labels. The next secret is 32 bytes
/// expanded from the current one, the key and salt of a generation 28 bytes
/// expanded from its secret, and a group's seed 32 bytes that its exporter gives
/// for the stream's SSRC.
pub proof fn law_chain_is_hkdf(group: MlsGroup, ssrc: u32, secret: Seq<u8>, steps: nat)
    ensures
        secret_after(secret, 0) == secret,
        secret_after(secret, steps + 1) == crate::crypto::hkdf_expand_sha256(
            secret_after(secret, steps),
            crate::bytes::text_bytes("next generation"@),
            32,
        ),
        key_salt_after(secret, steps) == crate::crypto::hkdf_expand_sha256(
            secret_after(secret, steps),
            crate::bytes::text_bytes("srtp key material"@),
            28,
        ),
        exported_seed(group, ssrc) == crate::crypto::mls_exporter(
            crate::crypto::exporter_state(group),
            "SRTP ratchet seed"@,
            crate::bytes::be32(ssrc),
            32,
        ),
{
}

} // verus!
