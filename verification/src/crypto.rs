//! The cryptography the library stands on, taken from outside crates.
//!
//! Nothing in this file is proved: each function hands its arguments to an
//! outside crate and its contract says what is relied on. What a primitive
//! computes has a name (`hmac_sha256`, `hkdf_expand_sha256`, ...), and every
//! contract of the library that depends on it speaks of that name.

use hmac::{Hmac, Mac};
use openmls::prelude::{BasicCredential, CredentialWithKey, KeyPackage, KeyPackageBundle, MlsGroup};
use openmls_basic_credential::SignatureKeyPair;
use openmls_rust_crypto::{OpenMlsRustCrypto, RustCrypto};
use openmls_traits::crypto::OpenMlsCrypto;
use openmls_traits::signatures::Signer;
use openmls_traits::types::{Ciphersuite, HashType, SignatureScheme};
use openmls_traits::OpenMlsProvider;
use openssl::cipher::Cipher;
use openssl::cipher_ctx::CipherCtx;
use sha2::Sha256;
use vstd::prelude::*;

verus! {

/// The crypto provider of `openmls_rust_crypto`, carried through unread.
#[verifier::external_type_specification]
#[verifier::external_body]
pub struct ExRustCrypto(openmls_rust_crypto::RustCrypto);

/// An MLS group of `openmls`, carried through unread.
#[verifier::external_type_specification]
#[verifier::external_body]
pub struct ExMlsGroup(openmls::prelude::MlsGroup);

/// The provider of `openmls_rust_crypto` with its key store, carried through
/// unread.
#[verifier::external_type_specification]
#[verifier::external_body]
pub struct ExOpenMlsRustCrypto(openmls_rust_crypto::OpenMlsRustCrypto);

/// A signature key pair of `openmls_basic_credential`, carried through unread.
#[verifier::external_type_specification]
#[verifier::external_body]
pub struct ExSignatureKeyPair(openmls_basic_credential::SignatureKeyPair);

/// A credential of `openmls` with its signature key, carried through unread.
#[verifier::external_type_specification]
#[verifier::external_body]
pub struct ExCredentialWithKey(openmls::prelude::CredentialWithKey);

/// A key package of `openmls` with its private keys, carried through unread.
#[verifier::external_type_specification]
#[verifier::external_body]
pub struct ExKeyPackageBundle(openmls::prelude::KeyPackageBundle);

/// HMAC-SHA256 of `message` under `key`: 32 bytes.
pub uninterp spec fn hmac_sha256(key: Seq<u8>, message: Seq<u8>) -> Seq<u8>;

/// HKDF-Expand with SHA-256: `len` bytes out of the pseudorandom key `prk`
/// under the label `info`.
pub uninterp spec fn hkdf_expand_sha256(prk: Seq<u8>, info: Seq<u8>, len: nat) -> Seq<u8>;

/// The 16-byte AES-128-GCM tag of an empty plaintext with the associated data
/// `data`, under a 16-byte key and a 12-byte nonce.
pub uninterp spec fn gmac_aes128(key: Seq<u8>, nonce: Seq<u8>, data: Seq<u8>) -> Seq<u8>;

/// Whether this member still belongs to the group.
pub uninterp spec fn group_active(group: MlsGroup) -> bool;

/// What a member's exports rest on: the number of the group's ciphersuite and
/// the exporter secret of its current epoch.
pub uninterp spec fn exporter_state(group: MlsGroup) -> (u16, Seq<u8>);

/// The MLS exporter (RFC 9420, section 8.5): the secret that an epoch exports
/// under a label and a context.
pub uninterp spec fn mls_exporter(
    state: (u16, Seq<u8>),
    label: Seq<char>,
    context: Seq<u8>,
    len: nat,
) -> Seq<u8>;

/// The public key of a signature key pair.
pub uninterp spec fn signer_public(signer: SignatureKeyPair) -> Seq<u8>;

/// Whether a signature key pair is an Ed25519 pair whose two halves belong
/// together, as a generated one is.
pub uninterp spec fn signer_ready(signer: SignatureKeyPair) -> bool;

/// The signature of a message by a key pair.
pub uninterp spec fn signature_by(signer: SignatureKeyPair, message: Seq<u8>) -> Seq<u8>;

/// Whether a signature of a message checks out under an Ed25519 public key.
pub uninterp spec fn ed25519_accepts(
    public_key: Seq<u8>,
    message: Seq<u8>,
    signature: Seq<u8>,
) -> bool;

/// The identity that a credential asserts.
pub uninterp spec fn credential_identity(credential: CredentialWithKey) -> Seq<u8>;

/// The signature key that goes with a credential.
pub uninterp spec fn credential_key(credential: CredentialWithKey) -> Seq<u8>;

/// The credential in a key package, with its signature key.
pub uninterp spec fn package_credential(package: KeyPackageBundle) -> CredentialWithKey;

/// Whether the public part of a key package can be encoded, and so has a
/// reference.
pub uninterp spec fn bundle_encodes(package: KeyPackageBundle) -> bool;

/// HMAC-SHA256 (`hmac` over `sha2`) of `head` followed by `tail`. HMAC takes a
/// key of any length. Claimed: the result is the HMAC of the concatenation,
/// a function of key and message alone, and 32 bytes long.
#[verifier::external_body]
pub(crate) fn hmac_tag(key: &[u8], head: &[u8], tail: &[u8]) -> (r: [u8; 32])
    ensures
        r@ == hmac_sha256(key@, head@ + tail@),
{
    let mut h = <Hmac<Sha256> as Mac>::new_from_slice(key).expect("HMAC accepts any key length");
    h.update(head);
    h.update(tail);
    h.finalize().into_bytes().into()
}

/// `RustCrypto::hkdf_expand` with SHA-256. It refuses a key shorter than one
/// hash output and more than 255 hash outputs; both are left out. Claimed: the
/// result depends on key, label and length alone and has the length asked for.
#[verifier::external_body]
pub(crate) fn hkdf_expand(crypto: &RustCrypto, prk: &[u8], info: &[u8], len: usize) -> (r: Vec<u8>)
    requires
        prk@.len() >= 32,
        len <= 255 * 32,
    ensures
        r@ == hkdf_expand_sha256(prk@, info@, len as nat),
        r@.len() == len,
{
    crypto
        .hkdf_expand(HashType::Sha2_256, prk, info, len)
        .expect("hkdf_expand failed")
        .as_slice()
        .to_vec()
}

/// AES-128-GCM over `data` as associated data and no plaintext (`openssl`'s
/// `CipherCtx`). The binding refuses a short key or nonce and more data than a
/// C `int` counts; these are left out. Claimed: the tag depends on key, nonce
/// and data alone.
#[verifier::external_body]
pub(crate) fn gmac_tag(key: &[u8], nonce: &[u8], data: &[u8]) -> (r: [u8; 16])
    requires
        key@.len() == 16,
        nonce@.len() == 12,
        data@.len() <= 0x7fff_ffff,
    ensures
        r@ == gmac_aes128(key@, nonce@, data@),
{
    let mut ctx = CipherCtx::new().expect("CipherCtx::new failed");
    ctx.encrypt_init(Some(Cipher::aes_128_gcm()), Some(key), Some(nonce))
        .expect("GCM init failed");
    ctx.cipher_update(data, None).expect("GCM aad failed");
    ctx.cipher_final(&mut []).expect("GCM final failed");
    let mut tag = [0u8; 16];
    ctx.tag(&mut tag).expect("GCM tag failed");
    tag
}

/// `RustCrypto::default`: a provider with its own entropy. Nothing is claimed
/// of it.
#[verifier::external_body]
pub(crate) fn fresh_crypto() -> RustCrypto {
    RustCrypto::default()
}

/// `MlsGroup::is_active`: whether this member has not been evicted.
#[verifier::external_body]
pub(crate) fn is_active(group: &MlsGroup) -> (r: bool)
    ensures
        r == group_active(*group),
{
    group.is_active()
}

/// `MlsGroup::export_secret`. It refuses a member that was evicted, a length of
/// zero and one over 65535; these are left out, and so are lengths that HKDF
/// cannot give and labels that are too long to encode. Claimed: the secret
/// depends on the group's ciphersuite and exporter secret, the label, the
/// context and the length, and has the length asked for.
#[verifier::external_body]
pub(crate) fn export_secret(
    group: &MlsGroup,
    crypto: &RustCrypto,
    label: &str,
    context: &[u8],
    len: usize,
) -> (r: Vec<u8>)
    requires
        group_active(*group),
        label@.len() <= 0x0fff_0000,
        1 <= len <= 255 * 32,
    ensures
        r@ == mls_exporter(exporter_state(*group), label@, context@, len as nat),
        r@.len() == len,
{
    group.export_secret(crypto, label, context, len).expect("export_secret failed")
}

/// `OpenMlsRustCrypto::default`: a provider with its own entropy and an empty
/// key store. Nothing is claimed of it.
#[verifier::external_body]
pub(crate) fn fresh_provider() -> OpenMlsRustCrypto {
    OpenMlsRustCrypto::default()
}

/// `SignatureKeyPair::new` for Ed25519: a fresh pair. Claimed: its two halves
/// belong together, and the public one is 32 bytes long.
#[verifier::external_body]
pub(crate) fn fresh_signer() -> (r: SignatureKeyPair)
    ensures
        signer_ready(r),
        signer_public(r).len() == 32,
{
    SignatureKeyPair::new(SignatureScheme::ED25519).expect("failed to generate a key pair")
}

/// `SignatureKeyPair::store`: puts the pair into the provider's key store,
/// where OpenMLS finds it. Nothing is claimed of the store.
#[verifier::external_body]
pub(crate) fn store_signer(signer: &SignatureKeyPair, provider: &OpenMlsRustCrypto) {
    signer.store(provider.storage()).expect("failed to store the signer")
}

/// `SignatureKeyPair::to_public_vec`: the pair's public key.
#[verifier::external_body]
pub(crate) fn public_key(signer: &SignatureKeyPair) -> (r: Vec<u8>)
    ensures
        r@ == signer_public(*signer),
{
    signer.to_public_vec()
}

/// `BasicCredential::new`, joined with a signature key. Claimed: the
/// credential asserts this identity and goes with this key.
#[verifier::external_body]
pub(crate) fn basic_credential(identity: &[u8], key: Vec<u8>) -> (r: CredentialWithKey)
    ensures
        credential_identity(r) == identity@,
        credential_key(r) == key@,
{
    CredentialWithKey {
        credential: BasicCredential::new(identity.to_vec()).into(),
        signature_key: key.into(),
    }
}

/// `KeyPackage::builder().build` for a ciphersuite, given by its number. It
/// refuses a signer of another scheme, and a credential or a signature key that
/// is too long to encode, alone or together; these are left out. Claimed: the
/// package carries the credential and can be encoded, as its reference has been
/// computed to store it; its other contents are random.
#[verifier::external_body]
pub(crate) fn build_key_package(
    ciphersuite: u16,
    provider: &OpenMlsRustCrypto,
    signer: &SignatureKeyPair,
    credential: &CredentialWithKey,
) -> (r: KeyPackageBundle)
    requires
        ciphersuite == crate::keying::mls::CIPHERSUITE,
        signer_ready(*signer),
        credential_identity(*credential).len() <= 0x2000_0000,
        credential_key(*credential).len() <= 0x1000_0000,
    ensures
        package_credential(r) == *credential,
        bundle_encodes(r),
{
    KeyPackage::builder()
        .build(
            Ciphersuite::try_from(ciphersuite).expect("unknown ciphersuite"),
            provider,
            signer,
            credential.clone(),
        )
        .expect("failed to build key package")
}

/// `SignatureKeyPair::sign`. It refuses a key that is not one of its scheme,
/// which is left out. Claimed: the signature depends on key pair and message
/// alone, and checks out under the pair's public key.
#[verifier::external_body]
pub(crate) fn sign(signer: &SignatureKeyPair, message: &[u8]) -> (r: Vec<u8>)
    requires
        signer_ready(*signer),
    ensures
        r@ == signature_by(*signer, message@),
        ed25519_accepts(signer_public(*signer), message@, r@),
{
    signer.sign(message).expect("signing failed")
}

/// `RustCrypto::verify_signature` for Ed25519. Claimed: whether it accepts
/// depends on public key, message and signature alone.
#[verifier::external_body]
pub(crate) fn verify_signature(
    crypto: &RustCrypto,
    message: &[u8],
    public_key: &[u8],
    signature: &[u8],
) -> (r: bool)
    ensures
        r == ed25519_accepts(public_key@, message@, signature@),
{
    crypto.verify_signature(SignatureScheme::ED25519, message, public_key, signature).is_ok()
}

} // verus!
