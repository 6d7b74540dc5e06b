//! The MLS operations the library stands on, taken from `openmls`.
//!
//! Nothing in this file is proved: each function hands its arguments to
//! `openmls` and its contract says what is relied on. Of a group, the contracts
//! speak of its epoch: who is in it, and what its exports rest on. Operations
//! that can fail say nothing of when they do, since entropy, the clock and the
//! key store decide too.
//!
//! With overflow checks and debug assertions on, some calls stop where they
//! would return an error: `tls_codec` on malformed lengths, `openmls` on the last
//! epoch that 64 bits can count and on some malformed messages, commits and
//! Welcomes. That no call panics holds for builds without them.

use openmls::prelude::tls_codec::{Deserialize, Serialize, TlsVecU16};
use openmls::prelude::{
    CredentialWithKey, KeyPackage, KeyPackageBundle, KeyPackageIn, LeafNodeParameters, MlsGroup,
    MlsGroupCreateConfig, MlsGroupJoinConfig, MlsMessageBodyIn, MlsMessageIn, MlsMessageOut,
    ProcessedMessageContent, ProtocolVersion, StagedCommit, StagedWelcome, Welcome,
};
use openmls_basic_credential::SignatureKeyPair;
use openmls_rust_crypto::{OpenMlsRustCrypto, RustCrypto};
use openmls_traits::types::Ciphersuite;
use openmls_traits::OpenMlsProvider;
use vstd::prelude::*;

verus! {

/// A key package of `openmls` that was validated, carried through unread.
#[verifier::external_type_specification]
#[verifier::external_body]
pub struct ExKeyPackage(openmls::prelude::KeyPackage);

/// A key package of `openmls` as received, carried through unread.
#[verifier::external_type_specification]
#[verifier::external_body]
pub struct ExKeyPackageIn(openmls::prelude::KeyPackageIn);

/// An MLS message of `openmls` as received, carried through unread.
#[verifier::external_type_specification]
#[verifier::external_body]
pub struct ExMlsMessageIn(openmls::prelude::MlsMessageIn);

/// An MLS message of `openmls` to send, carried through unread.
#[verifier::external_type_specification]
#[verifier::external_body]
pub struct ExMlsMessageOut(openmls::prelude::MlsMessageOut);

/// A Welcome of `openmls`, carried through unread.
#[verifier::external_type_specification]
#[verifier::external_body]
pub struct ExWelcome(openmls::prelude::Welcome);

/// A Welcome of `openmls` that was decrypted and checked, carried through
/// unread.
#[verifier::external_type_specification]
#[verifier::external_body]
pub struct ExStagedWelcome(openmls::prelude::StagedWelcome);

/// A commit of `openmls` that was decrypted and checked, carried through
/// unread.
#[verifier::external_type_specification]
#[verifier::external_body]
pub struct ExStagedCommit(openmls::prelude::StagedCommit);

/// The members of a group, in the order of their leaves: the identity that
/// each one's credential asserts, and its signature key.
pub uninterp spec fn members_of(group: MlsGroup) -> Seq<(Seq<u8>, Seq<u8>)>;

/// Whether proposals are waiting in a group for the next commit.
pub uninterp spec fn has_proposals(group: MlsGroup) -> bool;

/// The epoch that a group enters when its own pending commit is merged, where
/// there is one and it removes nobody: its members, what its exports rest on,
/// and its number.
pub uninterp spec fn pending_epoch(group: MlsGroup) -> Option<
    (Set<(Seq<u8>, Seq<u8>)>, (u16, Seq<u8>), nat),
>;

/// A message as it travels.
pub uninterp spec fn message_bytes(message: MlsMessageOut) -> Seq<u8>;

/// The MLS message that bytes hold, if they hold one.
pub uninterp spec fn tls_message(bytes: Seq<u8>) -> Option<MlsMessageIn>;

/// The MLS messages in a TLS-serialized list with a 16-bit length, if it is
/// one.
pub uninterp spec fn tls_messages(bytes: Seq<u8>) -> Option<Seq<MlsMessageIn>>;

/// The Welcome that a message is, if it is one.
pub uninterp spec fn message_welcome(message: MlsMessageIn) -> Option<Welcome>;

/// The epoch that a Welcome was made for, where a member made it to add others:
/// its members, what its exports rest on, and its number.
pub uninterp spec fn welcome_epoch(welcome: Welcome) -> Option<
    (Set<(Seq<u8>, Seq<u8>)>, (u16, Seq<u8>), nat),
>;

/// The epoch that a checked Welcome was made for, as `welcome_epoch` has it.
pub uninterp spec fn staged_welcome_epoch(welcome: StagedWelcome) -> Option<
    (Set<(Seq<u8>, Seq<u8>)>, (u16, Seq<u8>), nat),
>;

/// The epoch that a commit starts, where a member made it to add others or to
/// refresh its own keys: its members, what its exports rest on, and its number.
pub uninterp spec fn commit_epoch(message: MlsMessageIn) -> Option<
    (Set<(Seq<u8>, Seq<u8>)>, (u16, Seq<u8>), nat),
>;

/// The epoch that a checked commit starts, as `commit_epoch` has it.
pub uninterp spec fn staged_commit_epoch(commit: StagedCommit) -> Option<
    (Set<(Seq<u8>, Seq<u8>)>, (u16, Seq<u8>), nat),
>;

/// What the exports of the epoch rest on in which a commit was checked.
pub uninterp spec fn staged_in(commit: StagedCommit) -> (u16, Seq<u8>);

/// The number of the epoch that a group is in.
pub uninterp spec fn epoch_number(group: MlsGroup) -> nat;

/// The key package that bytes hold, if they hold one.
pub uninterp spec fn tls_key_package(bytes: Seq<u8>) -> Option<KeyPackageIn>;

/// Whom a key package as received claims to add: identity and signature key.
pub uninterp spec fn claimed_member(package: KeyPackageIn) -> (Seq<u8>, Seq<u8>);

/// Whether a key package can be encoded, and so has a reference.
pub uninterp spec fn package_encodes(package: KeyPackage) -> bool;

/// The reference by which a key package is called (RFC 9420, section 5.2).
pub uninterp spec fn package_hash(package: KeyPackage) -> Seq<u8>;

/// Whom a key package adds: identity and signature key.
pub uninterp spec fn package_member(package: KeyPackage) -> (Seq<u8>, Seq<u8>);

/// The epoch of a group: its members, what its exports rest on, and its number.
pub open spec fn epoch_of(group: MlsGroup) -> (
    Set<(Seq<u8>, Seq<u8>)>,
    (u16, Seq<u8>),
    nat,
) {
    (members_of(group).to_set(), crate::crypto::exporter_state(group), epoch_number(group))
}

/// Whether one epoch is `steps` after another, as far as 64 bits count them.
pub open spec fn epochs_later(before: nat, after: nat, steps: nat) -> bool {
    before + steps <= u64::MAX ==> after == before + steps
}

/// Whether a group has moved on by so many epochs, with its ciphersuite kept.
pub open spec fn moved_on(before: MlsGroup, after: MlsGroup, steps: nat) -> bool {
    &&& epochs_later(epoch_number(before), epoch_number(after), steps)
    &&& crate::crypto::exporter_state(after).0 == crate::crypto::exporter_state(before).0
}

/// Whether bytes hold a Welcome into an epoch.
pub open spec fn welcomes_into(
    bytes: Seq<u8>,
    epoch: (Set<(Seq<u8>, Seq<u8>)>, (u16, Seq<u8>), nat),
) -> bool {
    &&& tls_message(bytes) matches Some(message)
    &&& message_welcome(message) matches Some(welcome)
    &&& welcome_epoch(welcome) == Some(epoch)
}

/// Whether bytes hold a commit that starts an epoch.
pub open spec fn commits_to(
    bytes: Seq<u8>,
    epoch: (Set<(Seq<u8>, Seq<u8>)>, (u16, Seq<u8>), nat),
) -> bool {
    &&& tls_message(bytes) matches Some(message)
    &&& commit_epoch(message) == Some(epoch)
}

/// Whether a group stands where it stood: in the same epoch, with this member
/// as able to export from it as before, and with proposals waiting or not as
/// before.
pub open spec fn stands_still(before: MlsGroup, after: MlsGroup) -> bool {
    &&& epoch_of(after) == epoch_of(before)
    &&& crate::crypto::group_active(after) == crate::crypto::group_active(before)
    &&& has_proposals(after) == has_proposals(before)
}

/// Whom key packages add.
pub open spec fn added_members(packages: Seq<KeyPackage>) -> Set<(Seq<u8>, Seq<u8>)> {
    packages.map_values(|p: KeyPackage| package_member(p)).to_set()
}

/// `MlsGroup::new` for a ciphersuite, given by its number, with the ratchet
/// tree in every Welcome. It stops on a ciphersuite that the provider lacks, so
/// others than the one in use are left out. Claimed: the new group is in epoch
/// 0 and has this ciphersuite; it holds its creator alone, who can export from
/// it; and no proposal waits in it. Its secrets are random.
#[verifier::external_body]
pub(crate) fn new_group(
    ciphersuite: u16,
    provider: &OpenMlsRustCrypto,
    signer: &SignatureKeyPair,
    credential: &CredentialWithKey,
) -> (r: Result<MlsGroup, String>)
    requires
        ciphersuite == crate::keying::mls::CIPHERSUITE,
    ensures
        match r {
            Ok(group) => {
                &&& crate::crypto::group_active(group)
                &&& !has_proposals(group)
                &&& crate::crypto::exporter_state(group).0 == ciphersuite
                &&& epoch_number(group) == 0
                &&& members_of(group) == seq![
                    (
                        crate::crypto::credential_identity(*credential),
                        crate::crypto::credential_key(*credential),
                    ),
                ]
            },
            Err(_) => true,
        },
{
    let config = MlsGroupCreateConfig::builder()
        .ciphersuite(Ciphersuite::try_from(ciphersuite).map_err(|e| e.to_string())?)
        .use_ratchet_tree_extension(true)
        .build();
    MlsGroup::new(provider, signer, &config, credential.clone()).map_err(|e| e.to_string())
}

/// `MlsGroup::add_members`: commit and Welcome. It is not written for every
/// kind of waiting proposal, so groups with one are left out. Claimed: the
/// group's pending commit leads to the next epoch, with the same ciphersuite,
/// the members it had and those that the packages add; the commit starts that
/// epoch and the Welcome leads into it, also after having travelled as bytes.
/// Where it fails, the group stands where it stood: the commit is built on a
/// copy of the group's tree. The epoch's secrets are random.
#[verifier::external_body]
pub(crate) fn add_members(
    group: &mut MlsGroup,
    provider: &OpenMlsRustCrypto,
    signer: &SignatureKeyPair,
    packages: &Vec<KeyPackage>,
) -> (r: Result<(MlsMessageOut, MlsMessageOut), String>)
    requires
        !has_proposals(*old(group)),
    ensures
        match r {
            Ok((commit, welcome)) => {
                &&& pending_epoch(*final(group)) matches Some(epoch)
                &&& epoch.0 == members_of(*old(group)).to_set().union(added_members(packages@))
                &&& (epoch.1).0 == crate::crypto::exporter_state(*old(group)).0
                &&& epochs_later(epoch_number(*old(group)), epoch.2, 1)
                &&& commits_to(message_bytes(commit), epoch)
                &&& welcomes_into(message_bytes(welcome), epoch)
            },
            Err(_) => stands_still(*old(group), *final(group)),
        },
{
    group
        .add_members(provider, signer, packages)
        .map(|(commit, welcome, _)| (commit, welcome))
        .map_err(|e| e.to_string())
}

/// `MlsGroup::self_update` with the leaf's parameters kept: a commit that
/// refreshes this member's keys. It is not written for every kind of waiting
/// proposal, so groups with one are left out. Claimed: the group's pending
/// commit leads to the next epoch, with the same ciphersuite and members, and
/// the commit starts that epoch, also after having travelled as bytes. Where it
/// fails, the group stands where it stood, as with `add_members`. The epoch's
/// secrets are random.
#[verifier::external_body]
pub(crate) fn self_update(
    group: &mut MlsGroup,
    provider: &OpenMlsRustCrypto,
    signer: &SignatureKeyPair,
) -> (r: Result<MlsMessageOut, String>)
    requires
        !has_proposals(*old(group)),
    ensures
        match r {
            Ok(commit) => {
                &&& pending_epoch(*final(group)) matches Some(epoch)
                &&& epoch.0 == members_of(*old(group)).to_set()
                &&& (epoch.1).0 == crate::crypto::exporter_state(*old(group)).0
                &&& epochs_later(epoch_number(*old(group)), epoch.2, 1)
                &&& commits_to(message_bytes(commit), epoch)
            },
            Err(_) => stands_still(*old(group), *final(group)),
        },
{
    group
        .self_update(provider, signer, LeafNodeParameters::default())
        .map(|bundle| bundle.into_commit())
        .map_err(|e| e.to_string())
}

/// `MlsGroup::merge_pending_commit`. Claimed: where the pending commit removes
/// nobody, the group is in the epoch that it leads to, this member can export
/// from it, and no proposal waits in it.
#[verifier::external_body]
pub(crate) fn merge_pending(group: &mut MlsGroup, provider: &OpenMlsRustCrypto) -> (r: Result<
    (),
    String,
>)
    ensures
        r is Ok && pending_epoch(*old(group)) is Some ==> {
            &&& epoch_of(*final(group)) == pending_epoch(*old(group))->0
            &&& crate::crypto::group_active(*final(group))
            &&& !has_proposals(*final(group))
        },
{
    group.merge_pending_commit(provider).map_err(|e| e.to_string())
}

/// `MlsGroup::process_message` on a message that `try_into_protocol_message`
/// takes: the commit in it, or `None` where it holds something else. Claimed:
/// only a member who can export from the group gets an answer; the group stands
/// where it stood, whatever came of the message, since only the keys for
/// decrypting messages move on; the checked commit was checked in the group's
/// epoch and starts the epoch that the message's commit starts; and a message
/// that holds a member's commit is not taken for something else. With debug
/// assertions on, it stops on some malformed messages.
#[verifier::external_body]
pub(crate) fn process_message(
    group: &mut MlsGroup,
    provider: &OpenMlsRustCrypto,
    message: MlsMessageIn,
) -> (r: Result<Option<Box<StagedCommit>>, String>)
    ensures
        stands_still(*old(group), *final(group)),
        r is Ok ==> crate::crypto::group_active(*old(group)),
        match r {
            Ok(Some(staged)) => {
                &&& staged_commit_epoch(*staged) == commit_epoch(message)
                &&& staged_in(*staged) == crate::crypto::exporter_state(*final(group))
            },
            Ok(None) => commit_epoch(message) is None,
            Err(_) => true,
        },
{
    let message = message.try_into_protocol_message().map_err(|e| e.to_string())?;
    let processed = group.process_message(provider, message).map_err(|e| e.to_string())?;
    match processed.into_content() {
        ProcessedMessageContent::StagedCommitMessage(staged) => Ok(Some(staged)),
        _ => Ok(None),
    }
}

/// `MlsGroup::merge_staged_commit`. It does not ask where the commit was
/// checked, and writes its changes over whatever tree the group has; so other
/// groups and other epochs than that one are left out, and so is a member that
/// another commit of the epoch evicted. Claimed: where a member made the commit
/// to add others or to refresh its own keys, the group is in the epoch that the
/// commit starts, this member can export from it, and no proposal waits in it.
#[verifier::external_body]
pub(crate) fn merge_staged(
    group: &mut MlsGroup,
    provider: &OpenMlsRustCrypto,
    staged: Box<StagedCommit>,
) -> (r: Result<(), String>)
    requires
        crate::crypto::group_active(*old(group)),
        staged_in(*staged) == crate::crypto::exporter_state(*old(group)),
    ensures
        r is Ok && staged_commit_epoch(*staged) is Some ==> {
            &&& epoch_of(*final(group)) == staged_commit_epoch(*staged)->0
            &&& crate::crypto::group_active(*final(group))
            &&& !has_proposals(*final(group))
        },
{
    group.merge_staged_commit(provider, *staged).map_err(|e| e.to_string())
}

/// `StagedWelcome::new_from_welcome`, with the ratchet tree that the Welcome
/// carries. Claimed: the checked Welcome leads where the Welcome does. With
/// debug assertions on, it stops on some malformed Welcomes.
#[verifier::external_body]
pub(crate) fn stage_welcome(provider: &OpenMlsRustCrypto, welcome: Welcome) -> (r: Result<
    StagedWelcome,
    String,
>)
    ensures
        match r {
            Ok(staged) => staged_welcome_epoch(staged) == welcome_epoch(welcome),
            Err(_) => true,
        },
{
    let config = MlsGroupJoinConfig::builder().use_ratchet_tree_extension(true).build();
    StagedWelcome::new_from_welcome(provider, &config, welcome, None)
        .map_err(|e| e.to_string())
}

/// `StagedWelcome::into_group`. Claimed: this member can export from the
/// group, no proposal waits in it, and where a member made the Welcome to add
/// others, the group is in the epoch that it was made for.
#[verifier::external_body]
pub(crate) fn enter_group(staged: StagedWelcome, provider: &OpenMlsRustCrypto) -> (r: Result<
    MlsGroup,
    String,
>)
    ensures
        match r {
            Ok(group) => {
                &&& crate::crypto::group_active(group)
                &&& !has_proposals(group)
                &&& staged_welcome_epoch(staged) is Some ==> epoch_of(group)
                    == staged_welcome_epoch(staged)->0
            },
            Err(_) => true,
        },
{
    staged.into_group(provider).map_err(|e| e.to_string())
}

/// `MlsGroup::members`: each member's identity and signature key.
#[verifier::external_body]
pub(crate) fn group_members(group: &MlsGroup) -> (r: Vec<(Vec<u8>, Vec<u8>)>)
    ensures
        r@.map_values(|m: (Vec<u8>, Vec<u8>)| (m.0@, m.1@)) == members_of(*group),
{
    group
        .members()
        .map(|m| (m.credential.serialized_content().to_vec(), m.signature_key))
        .collect()
}

/// `MlsMessageOut::tls_serialize_detached`. Claimed: the bytes depend on the
/// message alone.
#[verifier::external_body]
pub(crate) fn serialize_message(message: &MlsMessageOut) -> (r: Result<Vec<u8>, String>)
    ensures
        match r {
            Ok(bytes) => bytes@ == message_bytes(*message),
            Err(_) => true,
        },
{
    message.tls_serialize_detached().map_err(|e| e.to_string())
}

/// `MlsMessageIn::tls_deserialize_exact`. Claimed: the message, and whether
/// there is one, depend on the bytes alone. What the error says is left open.
/// With debug assertions on, `tls_codec` stops on a malformed length instead.
#[verifier::external_body]
pub(crate) fn parse_message(bytes: &[u8]) -> (r: Result<MlsMessageIn, String>)
    ensures
        match r {
            Ok(message) => tls_message(bytes@) == Some(message),
            Err(_) => tls_message(bytes@) is None,
        },
{
    MlsMessageIn::tls_deserialize_exact(bytes).map_err(|e| e.to_string())
}

/// `TlsVecU16::tls_deserialize_exact` of `tls_codec` for MLS messages.
/// Claimed: the list, and whether there is one, depend on the bytes alone.
/// What the error says is left open. With debug assertions on, `tls_codec`
/// stops on a malformed length instead.
#[verifier::external_body]
pub(crate) fn parse_messages(bytes: &[u8]) -> (r: Result<Vec<MlsMessageIn>, String>)
    ensures
        match r {
            Ok(list) => tls_messages(bytes@) == Some(list@),
            Err(_) => tls_messages(bytes@) is None,
        },
{
    TlsVecU16::<MlsMessageIn>::tls_deserialize_exact(bytes)
        .map(|l| l.into())
        .map_err(|e| e.to_string())
}

/// `MlsMessageIn::extract`, kept where the body is a Welcome. Claimed: whether
/// it is one, and which, depends on the message alone.
#[verifier::external_body]
pub(crate) fn extract_welcome(message: MlsMessageIn) -> (r: Option<Welcome>)
    ensures
        r == message_welcome(message),
{
    match message.extract() {
        MlsMessageBodyIn::Welcome(welcome) => Some(welcome),
        _ => None,
    }
}

/// `KeyPackageIn::tls_deserialize_exact`. Claimed: the package, and whether
/// there is one, depend on the bytes alone. What the error says is left open.
/// With debug assertions on, `tls_codec` stops on a malformed length instead.
#[verifier::external_body]
pub(crate) fn parse_key_package(bytes: &[u8]) -> (r: Result<KeyPackageIn, String>)
    ensures
        match r {
            Ok(package) => tls_key_package(bytes@) == Some(package),
            Err(_) => tls_key_package(bytes@) is None,
        },
{
    KeyPackageIn::tls_deserialize_exact(bytes).map_err(|e| e.to_string())
}

/// `KeyPackageIn::validate`: signatures, protocol version, extensions and
/// lifetime. The clock decides too, so nothing is said of when it succeeds.
/// Claimed: a valid package adds whom it claimed to add.
#[verifier::external_body]
pub(crate) fn validate_key_package(package: KeyPackageIn, crypto: &RustCrypto) -> (r: Result<
    KeyPackage,
    String,
>)
    ensures
        match r {
            Ok(valid) => package_member(valid) == claimed_member(package),
            Err(_) => true,
        },
{
    package.validate(crypto, ProtocolVersion::Mls10).map_err(|e| e.to_string())
}

/// `KeyPackage::leaf_node` and its signature key.
#[verifier::external_body]
pub(crate) fn package_key(package: &KeyPackage) -> (r: Vec<u8>)
    ensures
        r@ == package_member(*package).1,
{
    package.leaf_node().signature_key().as_slice().to_vec()
}

/// `KeyPackage::hash_ref`. It refuses a package that cannot be encoded, which
/// is left out. Claimed: the reference depends on the package alone.
#[verifier::external_body]
pub(crate) fn hash_package(package: &KeyPackage, crypto: &RustCrypto) -> (r: Vec<u8>)
    requires
        package_encodes(*package),
    ensures
        r@ == package_hash(*package),
{
    package.hash_ref(crypto).expect("hash_ref failed").as_slice().to_vec()
}

/// `MlsGroup::epoch`: the number of the group's epoch.
#[verifier::external_body]
pub(crate) fn group_epoch(group: &MlsGroup) -> (r: u64)
    ensures
        r == epoch_number(*group),
{
    group.epoch().as_u64()
}

/// `MlsGroup::has_pending_proposals`: whether proposals wait in the group.
#[verifier::external_body]
pub(crate) fn proposals_wait(group: &MlsGroup) -> (r: bool)
    ensures
        r == has_proposals(*group),
{
    group.has_pending_proposals()
}

/// `OpenMlsRustCrypto::crypto`: the provider's cryptography, of which nothing
/// is claimed.
#[verifier::external_body]
pub(crate) fn crypto_of(provider: &OpenMlsRustCrypto) -> &RustCrypto {
    provider.crypto()
}

/// `KeyPackageBundle::key_package`: the public part. Claimed: it adds whom the
/// bundle's credential stands for, and can be encoded if the bundle's says so.
#[verifier::external_body]
pub(crate) fn public_package(bundle: &KeyPackageBundle) -> (r: KeyPackage)
    ensures
        package_member(r) == (
            crate::crypto::credential_identity(crate::crypto::package_credential(*bundle)),
            crate::crypto::credential_key(crate::crypto::package_credential(*bundle)),
        ),
        crate::crypto::bundle_encodes(*bundle) ==> package_encodes(r),
{
    bundle.key_package().clone()
}

/// Law: what it is for a group to move on, or to stand still. It moves on by just
/// so many epochs and keeps its ciphersuite; standing still, it keeps its members,
/// its secrets, its epoch and what waits in it.
pub proof fn law_groups_move_on_or_stand_still(before: MlsGroup, after: MlsGroup, steps: nat)
    ensures
        moved_on(before, after, steps) && epoch_number(before) + steps <= u64::MAX ==> epoch_number(
            after,
        ) == epoch_number(before) + steps,
        moved_on(before, after, steps) ==> crate::crypto::exporter_state(after).0
            == crate::crypto::exporter_state(before).0,
        stands_still(before, after) ==> {
            &&& members_of(after).to_set() == members_of(before).to_set()
            &&& crate::crypto::exporter_state(after) == crate::crypto::exporter_state(before)
            &&& epoch_number(after) == epoch_number(before)
            &&& crate::crypto::group_active(after) == crate::crypto::group_active(before)
            &&& has_proposals(after) == has_proposals(before)
        },
{
}

/// Law: what a message leads to. Bytes welcome into, or commit to, one epoch at
/// most, and it is the one that the message in them names.
pub proof fn law_messages_lead_to_one_epoch(
    bytes: Seq<u8>,
    epoch: (Set<(Seq<u8>, Seq<u8>)>, (u16, Seq<u8>), nat),
    group: MlsGroup,
)
    ensures
        welcomes_into(bytes, epoch) ==> tls_message(bytes) is Some && message_welcome(
            tls_message(bytes)->0,
        ) is Some && welcome_epoch(message_welcome(tls_message(bytes)->0)->0) == Some(epoch),
        commits_to(bytes, epoch) ==> tls_message(bytes) is Some && commit_epoch(
            tls_message(bytes)->0,
        ) == Some(epoch),
        epoch_of(group).0 == members_of(group).to_set(),
        epoch_of(group).1 == crate::crypto::exporter_state(group),
        epoch_of(group).2 == epoch_number(group),
{
}

/// Law: key packages add the members that they name, and nobody else.
pub proof fn law_packages_add_their_members(packages: Seq<KeyPackage>, m: (Seq<u8>, Seq<u8>))
    ensures
        added_members(packages).contains(m) <==> exists|i: int|
            0 <= i < packages.len() && package_member(#[trigger] packages[i]) == m,
{
    let added = packages.map_values(|p: KeyPackage| package_member(p));
    assert(added.contains(m) <==> added.to_set().contains(m));
    if added.contains(m) {
        let i = choose|i: int| 0 <= i < added.len() && added[i] == m;
        assert(package_member(packages[i]) == m);
    }
    if exists|i: int| 0 <= i < packages.len() && package_member(#[trigger] packages[i]) == m {
        let i = choose|i: int|
            0 <= i < packages.len() && package_member(#[trigger] packages[i]) == m;
        assert(added[i] == m);
    }
}

} // verus!
