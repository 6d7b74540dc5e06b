//! MLS group membership and SRTP key export.
//!
//! Keying material comes out of the MLS exporter (RFC 9420, section 8.5),
//! which derives it from the epoch's exporter secret, a label and a context.
//! The context is the SSRC of the stream that the key protects.

use std::collections::hash_map::DefaultHasher;
use std::hash::{Hash, Hasher};

use openmls::prelude::{CredentialWithKey, KeyPackageBundle, MlsGroup};
use openmls_basic_credential::SignatureKeyPair;
use openmls_rust_crypto::{OpenMlsRustCrypto, RustCrypto};
use vstd::prelude::*;
use vstd::std_specs::hash::DefaultHasherAdditionalSpecFns;

use crate::bytes::{push_be32, push_slice};
use crate::crypto::{
    basic_credential, build_key_package, export_secret, fresh_provider, fresh_signer, is_active,
    public_key, store_signer,
};

verus! {

/// The number of the MLS ciphersuite in use (RFC 9420, section 17.1):
/// MLS_128_DHKEMX25519_AES128GCM_SHA256_Ed25519.
pub const CIPHERSUITE: u16 = 0x0001;

/// MLS exporter label for the SRTP master key.
pub const SRTP_MASTER_KEY_LABEL: &'static str = "SRTP master key";

/// MLS exporter label for the SRTP master salt.
pub const SRTP_MASTER_SALT_LABEL: &'static str = "SRTP master salt";

/// SRTP AEAD_AES_128_GCM master key length (RFC 7714, section 12): 128 bits.
pub const AES_128_GCM_KEY_LEN: usize = 16;

/// SRTP AEAD_AES_128_GCM master salt length (RFC 7714, section 12): 96 bits.
pub const AES_128_GCM_SALT_LEN: usize = 12;

/// Combined key material length: master key, then master salt.
pub const SRTP_KEY_MATERIAL_LEN: usize = AES_128_GCM_KEY_LEN + AES_128_GCM_SALT_LEN;

/// What a string feeds into a hasher: one entry per write.
pub uninterp spec fn str_hash_writes(s: Seq<char>) -> Seq<Seq<u8>>;

/// `<str as std::hash::Hash>::hash`. Claimed: what it feeds into the hasher
/// depends on the string alone.
#[verifier::external_body]
fn hash_str(s: &str, state: &mut DefaultHasher)
    ensures
        final(state)@ == old(state)@ + str_hash_writes(s@),
{
    s.hash(state)
}

/// The SSRC of the stream that a member sends: the low 32 bits of its
/// identity's hash.
pub open spec fn identity_ssrc(identity: Seq<char>) -> u32 {
    (DefaultHasher::spec_finish(str_hash_writes(identity)) % 0x1_0000_0000) as u32
}

/// Derives a deterministic SSRC from a credential identity by hashing it, so
/// that receivers can compute any sender's SSRC without signaling.
pub fn ssrc_from_identity(identity: &str) -> (r: u32)
    ensures
        r == identity_ssrc(identity@),
        r == DefaultHasher::spec_finish(str_hash_writes(identity@)) % 0x1_0000_0000,
{
    let mut hasher = DefaultHasher::new();
    hash_str(identity, &mut hasher);
    assert(hasher@ =~= str_hash_writes(identity@));
    (hasher.finish() % 0x1_0000_0000) as u32
}

/// An MLS group member with its own provider, signing key and credential.
/// Members have separate key stores, as on separate devices.
pub struct MlsMember {
    pub provider: OpenMlsRustCrypto,
    pub signer: SignatureKeyPair,
    pub credential_with_key: CredentialWithKey,
}

impl MlsMember {
    /// The identity that the member's credential asserts.
    pub open spec fn identity(&self) -> Seq<u8> {
        crate::crypto::credential_identity(self.credential_with_key)
    }

    /// Creates a member with a fresh signing key and a basic credential
    /// (RFC 9420, section 5.3). The identity encodes the member's role, for
    /// instance "sender-48231:sender".
    pub fn new(identity: &str) -> (r: Self)
        ensures
            r.identity() == crate::bytes::text_bytes(identity@),
            crate::crypto::signer_ready(r.signer),
            crate::crypto::credential_key(r.credential_with_key) == crate::crypto::signer_public(
                r.signer,
            ),
            crate::crypto::signer_public(r.signer).len() == 32,
    {
        let provider = fresh_provider();
        let signer = fresh_signer();
        store_signer(&signer, &provider);
        let credential_with_key = basic_credential(identity.as_bytes(), public_key(&signer));
        MlsMember { provider, signer, credential_with_key }
    }

    /// Generates a key package with which this member can be added to a group:
    /// a signed, one-time bundle of its public key and credential (RFC 9420,
    /// section 10).
    pub fn generate_key_package(&self) -> (r: KeyPackageBundle)
        requires
            crate::crypto::signer_ready(self.signer),
            self.identity().len() <= 0x2000_0000,
            crate::crypto::credential_key(self.credential_with_key).len() <= 0x1000_0000,
        ensures
            crate::crypto::package_credential(r) == self.credential_with_key,
            crate::crypto::bundle_encodes(r),
    {
        build_key_package(
            CIPHERSUITE,
            &self.provider,
            &self.signer,
            &self.credential_with_key,
        )
    }
}

/// Parses a credential identity of the form `label:role` into `(label, role)`.
/// The label may itself hold colons; the role is what follows the last one.
pub fn parse_credential_identity(identity: &str) -> (r: (&str, &str))
    requires
        identity@.contains(':'),
    ensures
        identity@ == r.0@ + seq![':'] + r.1@,
        !r.1@.contains(':'),
{
    let len: usize = identity.unicode_len();
    let mut at: usize = len;
    while at > 0 && identity.get_char(at - 1) != ':'
        invariant
            at <= len,
            len == identity@.len(),
            forall|j: int| at <= j < len ==> identity@[j] != ':',
        decreases at,
    {
        at -= 1;
    }
    let label = identity.substring_char(0, at - 1);
    let role = identity.substring_char(at, len);
    assert(identity@ =~= label@ + seq![':'] + role@);
    (label, role)
}

/// Builds the context handed to the MLS exporter: the four bytes of the SSRC,
/// so that each sender of an epoch gets its own key and salt.
pub fn build_exporter_context(ssrc: u32) -> (r: Vec<u8>)
    ensures
        r@ == crate::bytes::be32(ssrc),
{
    let mut context: Vec<u8> = Vec::new();
    push_be32(&mut context, ssrc);
    assert(context@ =~= crate::bytes::be32(ssrc));
    context
}

/// Law: two streams never share an exporter context.
pub proof fn law_exporter_context_binds_ssrc(a: u32, b: u32)
    ensures
        crate::bytes::be32(a) == crate::bytes::be32(b) <==> a == b,
{
    if crate::bytes::be32(a) == crate::bytes::be32(b) {
        crate::bytes::lemma_be32_injective(a, b);
    }
}

/// The SRTP master key that a group's epoch exports for a stream.
pub open spec fn exported_master_key(group: MlsGroup, ssrc: u32) -> Seq<u8> {
    crate::crypto::mls_exporter(
        crate::crypto::exporter_state(group),
        SRTP_MASTER_KEY_LABEL@,
        crate::bytes::be32(ssrc),
        AES_128_GCM_KEY_LEN as nat,
    )
}

/// The SRTP master salt that a group's epoch exports for a stream.
pub open spec fn exported_master_salt(group: MlsGroup, ssrc: u32) -> Seq<u8> {
    crate::crypto::mls_exporter(
        crate::crypto::exporter_state(group),
        SRTP_MASTER_SALT_LABEL@,
        crate::bytes::be32(ssrc),
        AES_128_GCM_SALT_LEN as nat,
    )
}

/// Law: two members that share an epoch's exporter state export the same SRTP
/// key and salt for a stream.
pub proof fn law_members_export_the_same_keys(a: MlsGroup, b: MlsGroup, ssrc: u32)
    requires
        crate::crypto::exporter_state(a) == crate::crypto::exporter_state(b),
    ensures
        exported_master_key(a, ssrc) == exported_master_key(b, ssrc),
        exported_master_salt(a, ssrc) == exported_master_salt(b, ssrc),
{
}

/// Whether this member's group can export keys: it can until the member is
/// evicted.
pub fn can_export(group: &MlsGroup) -> (r: bool)
    ensures
        r == crate::crypto::group_active(*group),
{
    is_active(group)
}

/// Exports SRTP master key and master salt from an MLS group for a stream.
/// Returns `(key || salt, key, salt)`: the first is what an SRTP session
/// takes, the others are for logging.
pub fn export_srtp_keys(group: &MlsGroup, crypto: &RustCrypto, ssrc: u32) -> (r: (
    Vec<u8>,
    Vec<u8>,
    Vec<u8>,
))
    requires
        crate::crypto::group_active(*group),
    ensures
        r.0@ == r.1@ + r.2@,
        r.1@ == exported_master_key(*group, ssrc),
        r.1@.len() == AES_128_GCM_KEY_LEN,
        r.2@ == exported_master_salt(*group, ssrc),
        r.2@.len() == AES_128_GCM_SALT_LEN,
{
    let context = build_exporter_context(ssrc);
    proof {
        reveal_strlit("SRTP master key");
        reveal_strlit("SRTP master salt");
    }
    let master_key = export_secret(
        group,
        crypto,
        SRTP_MASTER_KEY_LABEL,
        context.as_slice(),
        AES_128_GCM_KEY_LEN,
    );
    let master_salt = export_secret(
        group,
        crypto,
        SRTP_MASTER_SALT_LABEL,
        context.as_slice(),
        AES_128_GCM_SALT_LEN,
    );
    let mut key_material: Vec<u8> = Vec::new();
    push_slice(&mut key_material, master_key.as_slice());
    push_slice(&mut key_material, master_salt.as_slice());
    assert(key_material@ =~= master_key@ + master_salt@);
    (key_material, master_key, master_salt)
}

/// Law: key and salt come from the exporter under their own labels, bound to the
/// stream's SSRC: 16 bytes of key and 12 of salt.
pub proof fn law_exports_are_labelled(group: MlsGroup, ssrc: u32)
    ensures
        exported_master_key(group, ssrc) == crate::crypto::mls_exporter(
            crate::crypto::exporter_state(group),
            "SRTP master key"@,
            crate::bytes::be32(ssrc),
            16,
        ),
        exported_master_salt(group, ssrc) == crate::crypto::mls_exporter(
            crate::crypto::exporter_state(group),
            "SRTP master salt"@,
            crate::bytes::be32(ssrc),
            12,
        ),
{
}

/// Law: a stream's SSRC is the low 32 bits of its sender's hash, so that two names
/// with one hash share it and every bit of these 32 counts.
pub proof fn law_ssrc_is_the_low_half_of_the_hash(identity: Seq<char>, other: Seq<char>)
    ensures
        identity_ssrc(identity) == identity_ssrc(other) <==> DefaultHasher::spec_finish(
            str_hash_writes(identity),
        ) % 0x1_0000_0000 == DefaultHasher::spec_finish(str_hash_writes(other)) % 0x1_0000_0000,
        identity_ssrc(identity) == DefaultHasher::spec_finish(str_hash_writes(identity))
            % 0x1_0000_0000,
{
}

} // verus!
