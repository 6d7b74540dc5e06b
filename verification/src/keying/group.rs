//! Forming an MLS group, joining it, and moving it to the next epoch.
//!
//! The creator checks each peer's key package against the key that the peer
//! registered, adds all peers in one commit and hands out the Welcome. A joiner
//! enters the group through the Welcome. A member that refreshes its keys
//! starts a new epoch, and the others follow its commit. All members of an
//! epoch export the same SRTP keys.

use openmls::prelude::{KeyPackage, MlsGroup, StagedCommit, Welcome};
use openmls_basic_credential::SignatureKeyPair;
use openmls_rust_crypto::{OpenMlsRustCrypto, RustCrypto};
use vstd::prelude::*;

use crate::bytes::same_bytes;
use crate::keying::mls::{MlsMember, CIPHERSUITE};
use crate::messaging::{
    add_members, enter_group, extract_welcome, group_epoch, merge_pending, merge_staged, new_group,
    package_key, parse_key_package, parse_message, process_message, proposals_wait, public_package,
    self_update, serialize_message, stage_welcome, validate_key_package,
};
use crate::text::{decimal_text, joined};

verus! {

/// What went wrong with a group, with `openmls`'s own words.
#[derive(Debug)]
pub enum GroupError {
    /// The group could not be created.
    Create(String),
    /// The members could not be added.
    Add(String),
    /// The pending commit could not be merged.
    Merge(String),
    /// This member's keys could not be refreshed.
    Update(String),
    /// A message could not be serialized.
    Encode(String),
    /// The bytes hold no MLS message.
    Decode(String),
    /// The message is no Welcome.
    NotWelcome,
    /// The Welcome was refused.
    Join(String),
    /// The message was refused.
    Process(String),
    /// The message is no commit.
    NotCommit,
}

/// Why a peer's key package was not accepted.
#[derive(Debug)]
pub enum PeerRejected {
    /// The bytes hold no key package.
    Malformed(String),
    /// The key package is not valid.
    Invalid(String),
    /// The key package's signature key is not the registered one.
    KeyMismatch,
}

/// Accepts a valid key package if its signature key is the one that the peer
/// registered. This keeps out key packages that somebody else made in the
/// peer's name.
pub fn check_registered_key(package: KeyPackage, registered_key: &[u8]) -> (r: Result<
    KeyPackage,
    PeerRejected,
>)
    ensures
        match r {
            Ok(accepted) => {
                &&& accepted == package
                &&& crate::messaging::package_member(package).1 == registered_key@
            },
            Err(e) => {
                &&& e is KeyMismatch
                &&& crate::messaging::package_member(package).1 != registered_key@
            },
        },
{
    let key = package_key(&package);
    if same_bytes(key.as_slice(), registered_key) {
        Ok(package)
    } else {
        Err(PeerRejected::KeyMismatch)
    }
}

/// What a rejection says of a peer's key package.
pub open spec fn rejected(
    package_bytes: Seq<u8>,
    registered_key: Seq<u8>,
    e: PeerRejected,
) -> bool {
    match e {
        PeerRejected::Malformed(_) => crate::messaging::tls_key_package(package_bytes) is None,
        PeerRejected::Invalid(_) => crate::messaging::tls_key_package(package_bytes) is Some,
        PeerRejected::KeyMismatch => {
            &&& crate::messaging::tls_key_package(package_bytes) matches Some(incoming)
            &&& crate::messaging::claimed_member(incoming).1 != registered_key
        },
    }
}

/// Reads a peer's key package as the DS hands it out, validates it, and checks
/// it against the key that the peer registered with the AS.
pub fn accept_peer(crypto: &RustCrypto, package_bytes: &[u8], registered_key: &[u8]) -> (r: Result<
    KeyPackage,
    PeerRejected,
>)
    ensures
        match r {
            Ok(package) => {
                &&& crate::messaging::tls_key_package(package_bytes@) matches Some(incoming)
                &&& crate::messaging::package_member(package)
                    == crate::messaging::claimed_member(incoming)
                &&& crate::messaging::package_member(package).1 == registered_key@
            },
            Err(e) => rejected(package_bytes@, registered_key@, e),
        },
{
    let incoming = match parse_key_package(package_bytes) {
        Ok(incoming) => incoming,
        Err(e) => {
            return Err(PeerRejected::Malformed(e));
        },
    };
    match validate_key_package(incoming, crypto) {
        Ok(package) => check_registered_key(package, registered_key),
        Err(e) => Err(PeerRejected::Invalid(e)),
    }
}

/// The members of an epoch, by identity.
pub open spec fn identities(
    epoch: (Set<(Seq<u8>, Seq<u8>)>, (u16, Seq<u8>), nat),
) -> Set<Seq<u8>> {
    epoch.0.map(|m: (Seq<u8>, Seq<u8>)| m.0)
}

/// What a failed invitation leaves behind: the group as it stood where the
/// members could not be added, and the epoch with the new members where only
/// the messages could not be written. A merge that fails may have been halfway.
pub open spec fn invite_failed(
    before: MlsGroup,
    after: MlsGroup,
    packages: Seq<KeyPackage>,
    e: GroupError,
) -> bool {
    match e {
        GroupError::Add(_) => crate::messaging::stands_still(before, after),
        GroupError::Encode(_) => {
            &&& crate::crypto::group_active(after)
            &&& !crate::messaging::has_proposals(after)
            &&& crate::messaging::epoch_of(after).0 == crate::messaging::epoch_of(before).0.union(
                crate::messaging::added_members(packages),
            )
            &&& crate::messaging::moved_on(before, after, 1)
        },
        GroupError::Merge(_) => true,
        _ => false,
    }
}

/// Adds members to a group and enters the epoch that they belong to. Returns
/// the commit for the other members and the Welcome for the new ones, as they
/// travel.
pub fn invite(
    group: &mut MlsGroup,
    provider: &OpenMlsRustCrypto,
    signer: &SignatureKeyPair,
    packages: &Vec<KeyPackage>,
) -> (r: Result<(Vec<u8>, Vec<u8>), GroupError>)
    requires
        !crate::messaging::has_proposals(*old(group)),
    ensures
        match r {
            Ok((commit, welcome)) => {
                &&& crate::crypto::group_active(*final(group))
                &&& !crate::messaging::has_proposals(*final(group))
                &&& crate::messaging::epoch_of(*final(group)).0 == crate::messaging::epoch_of(
                    *old(group),
                ).0.union(crate::messaging::added_members(packages@))
                &&& crate::messaging::moved_on(*old(group), *final(group), 1)
                &&& crate::messaging::commits_to(
                    commit@,
                    crate::messaging::epoch_of(*final(group)),
                )
                &&& crate::messaging::welcomes_into(
                    welcome@,
                    crate::messaging::epoch_of(*final(group)),
                )
            },
            Err(e) => invite_failed(*old(group), *final(group), packages@, e),
        },
{
    let (commit, welcome) = match add_members(group, provider, signer, packages) {
        Ok(messages) => messages,
        Err(e) => {
            return Err(GroupError::Add(e));
        },
    };
    match merge_pending(group, provider) {
        Ok(_) => {},
        Err(e) => {
            return Err(GroupError::Merge(e));
        },
    }
    match (serialize_message(&commit), serialize_message(&welcome)) {
        (Ok(commit), Ok(welcome)) => Ok((commit, welcome)),
        (Err(e), _) => Err(GroupError::Encode(e)),
        (_, Err(e)) => Err(GroupError::Encode(e)),
    }
}

/// What creating a group with these peers leads to: a group of the ciphersuite
/// in use, with everybody in its epoch 1, and a Welcome that leads into it.
pub open spec fn created(
    member: &MlsMember,
    peers: Seq<KeyPackage>,
    r: Result<(MlsGroup, Vec<u8>), GroupError>,
) -> bool {
    match r {
        Ok((group, welcome)) => {
            &&& crate::crypto::group_active(group)
            &&& !crate::messaging::has_proposals(group)
            &&& crate::messaging::epoch_of(group).0 == set![
                (member.identity(), crate::crypto::credential_key(member.credential_with_key)),
            ].union(crate::messaging::added_members(peers))
            &&& crate::messaging::epoch_number(group) == 1
            &&& crate::crypto::exporter_state(group).0 == CIPHERSUITE
            &&& crate::messaging::welcomes_into(welcome@, crate::messaging::epoch_of(group))
        },
        Err(e) => e is Create || e is Add || e is Merge || e is Encode,
    }
}

/// Creates a group with all the given peers in it. Returns the group and the
/// Welcome for the peers, as it travels.
pub fn create_group(member: &MlsMember, peers: &Vec<KeyPackage>) -> (r: Result<
    (MlsGroup, Vec<u8>),
    GroupError,
>)
    ensures
        created(member, peers@, r),
{
    let mut group = match new_group(
        CIPHERSUITE,
        &member.provider,
        &member.signer,
        &member.credential_with_key,
    ) {
        Ok(group) => group,
        Err(e) => {
            return Err(GroupError::Create(e));
        },
    };
    proof {
        lemma_singleton_set(crate::messaging::members_of(group));
    }
    match invite(&mut group, &member.provider, &member.signer, peers) {
        Ok((_, welcome)) => Ok((group, welcome)),
        Err(e) => Err(e),
    }
}

/// A sequence of one element has the set of that element.
proof fn lemma_singleton_set<A>(s: Seq<A>)
    requires
        s.len() == 1,
    ensures
        s.to_set() == set![s[0]],
{
    assert(s.to_set() =~= set![s[0]]) by {
        assert forall|a: A| s.to_set().contains(a) implies set![s[0]].contains(a) by {
            let i = choose|i: int| 0 <= i < s.len() && s[i] == a;
            assert(i == 0);
        }
        assert(s.contains(s[0]));
    }
}

/// The Welcome that bytes hold.
pub fn read_welcome(bytes: &[u8]) -> (r: Result<Welcome, GroupError>)
    ensures
        match r {
            Ok(welcome) => {
                &&& crate::messaging::tls_message(bytes@) matches Some(message)
                &&& crate::messaging::message_welcome(message) == Some(welcome)
            },
            Err(GroupError::NotWelcome) => {
                &&& crate::messaging::tls_message(bytes@) matches Some(message)
                &&& crate::messaging::message_welcome(message) is None
            },
            Err(e) => e is Decode && crate::messaging::tls_message(bytes@) is None,
        },
{
    match parse_message(bytes) {
        Ok(message) => match extract_welcome(message) {
            Some(welcome) => Ok(welcome),
            None => Err(GroupError::NotWelcome),
        },
        Err(e) => Err(GroupError::Decode(e)),
    }
}

/// Joins the group that a Welcome leads into.
pub fn join_group(member: &MlsMember, welcome: Welcome) -> (r: Result<MlsGroup, GroupError>)
    ensures
        match r {
            Ok(group) => {
                &&& crate::crypto::group_active(group)
                &&& !crate::messaging::has_proposals(group)
                &&& crate::messaging::welcome_epoch(welcome) is Some
                    ==> crate::messaging::epoch_of(group) == crate::messaging::welcome_epoch(
                    welcome,
                )->0
            },
            Err(e) => e is Join,
        },
{
    let staged = match stage_welcome(&member.provider, welcome) {
        Ok(staged) => staged,
        Err(e) => {
            return Err(GroupError::Join(e));
        },
    };
    match enter_group(staged, &member.provider) {
        Ok(group) => Ok(group),
        Err(e) => Err(GroupError::Join(e)),
    }
}

/// Whether this member can commit to its group: it can while no proposal of
/// somebody else waits in it.
pub fn can_commit(group: &MlsGroup) -> (r: bool)
    ensures
        r == !crate::messaging::has_proposals(*group),
{
    !proposals_wait(group)
}

/// The number of the epoch that a group is in. Every commit starts the next one.
pub fn current_epoch(group: &MlsGroup) -> (r: u64)
    ensures
        r == crate::messaging::epoch_number(*group),
{
    group_epoch(group)
}

/// What a failed refresh leaves behind: the group as it stood where the keys
/// could not be refreshed, and the next epoch where only the commit could not be
/// written. A merge that fails may have been halfway.
pub open spec fn rekey_failed(before: MlsGroup, after: MlsGroup, e: GroupError) -> bool {
    match e {
        GroupError::Update(_) => crate::messaging::stands_still(before, after),
        GroupError::Encode(_) => {
            &&& crate::crypto::group_active(after)
            &&& !crate::messaging::has_proposals(after)
            &&& crate::messaging::epoch_of(after).0 == crate::messaging::epoch_of(before).0
            &&& crate::messaging::moved_on(before, after, 1)
        },
        GroupError::Merge(_) => true,
        _ => false,
    }
}

/// Refreshes this member's keys and enters the epoch that this starts, with
/// the same members. Returns the commit that the others follow, as it travels.
pub fn create_rekey_commit(
    group: &mut MlsGroup,
    provider: &OpenMlsRustCrypto,
    signer: &SignatureKeyPair,
) -> (r: Result<Vec<u8>, GroupError>)
    requires
        !crate::messaging::has_proposals(*old(group)),
    ensures
        match r {
            Ok(commit) => {
                &&& crate::crypto::group_active(*final(group))
                &&& !crate::messaging::has_proposals(*final(group))
                &&& crate::messaging::epoch_of(*final(group)).0 == crate::messaging::epoch_of(
                    *old(group),
                ).0
                &&& crate::messaging::moved_on(*old(group), *final(group), 1)
                &&& crate::messaging::commits_to(
                    commit@,
                    crate::messaging::epoch_of(*final(group)),
                )
            },
            Err(e) => rekey_failed(*old(group), *final(group), e),
        },
{
    let commit = match self_update(group, provider, signer) {
        Ok(commit) => commit,
        Err(e) => {
            return Err(GroupError::Update(e));
        },
    };
    match merge_pending(group, provider) {
        Ok(_) => {},
        Err(e) => {
            return Err(GroupError::Merge(e));
        },
    }
    match serialize_message(&commit) {
        Ok(bytes) => Ok(bytes),
        Err(e) => Err(GroupError::Encode(e)),
    }
}

/// Acts on what became of a message that should hold a commit: a commit that was
/// checked in the group's epoch is merged, and the group enters the epoch that it
/// starts; anything else is an error and leaves the group alone.
pub fn follow_commit(
    group: &mut MlsGroup,
    provider: &OpenMlsRustCrypto,
    checked: Result<Option<Box<StagedCommit>>, String>,
) -> (r: Result<(), GroupError>)
    requires
        checked matches Ok(Some(staged)) ==> {
            &&& crate::crypto::group_active(*old(group))
            &&& crate::messaging::staged_in(*staged) == crate::crypto::exporter_state(*old(group))
        },
    ensures
        match checked {
            Err(e) => {
                &&& r == Err::<(), GroupError>(GroupError::Process(e))
                &&& *final(group) == *old(group)
            },
            Ok(None) => {
                &&& r == Err::<(), GroupError>(GroupError::NotCommit)
                &&& *final(group) == *old(group)
            },
            Ok(Some(staged)) => match r {
                Ok(_) => crate::messaging::staged_commit_epoch(*staged) matches Some(epoch) ==> {
                    &&& crate::messaging::epoch_of(*final(group)) == epoch
                    &&& crate::crypto::group_active(*final(group))
                    &&& !crate::messaging::has_proposals(*final(group))
                },
                Err(e) => e is Merge,
            },
        },
{
    match checked {
        Ok(Some(staged)) => match merge_staged(group, provider, staged) {
            Ok(_) => Ok(()),
            Err(e) => Err(GroupError::Merge(e)),
        },
        Ok(None) => Err(GroupError::NotCommit),
        Err(e) => Err(GroupError::Process(e)),
    }
}

/// Follows another member's commit into the epoch that it starts.
pub fn process_commit(group: &mut MlsGroup, provider: &OpenMlsRustCrypto, commit: &[u8]) -> (r:
    Result<(), GroupError>)
    ensures
        match r {
            Ok(_) => {
                &&& crate::crypto::group_active(*old(group))
                &&& crate::messaging::tls_message(commit@) matches Some(message)
                &&& crate::messaging::commit_epoch(message) matches Some(epoch) ==> {
                    &&& crate::messaging::epoch_of(*final(group)) == epoch
                    &&& crate::crypto::group_active(*final(group))
                    &&& !crate::messaging::has_proposals(*final(group))
                }
            },
            Err(GroupError::Decode(_)) => {
                &&& crate::messaging::tls_message(commit@) is None
                &&& *final(group) == *old(group)
            },
            Err(e) => {
                &&& e is Process || e is NotCommit || e is Merge
                &&& crate::messaging::tls_message(commit@) matches Some(message)
                &&& e is NotCommit ==> crate::crypto::group_active(*old(group))
                    && crate::messaging::commit_epoch(message) is None
                &&& !(e is Merge) ==> crate::messaging::stands_still(*old(group), *final(group))
            },
        },
{
    let message = match parse_message(commit) {
        Ok(message) => message,
        Err(e) => {
            return Err(GroupError::Decode(e));
        },
    };
    let checked = process_message(group, provider, message);
    follow_commit(group, provider, checked)
}

/// Law: whoever enters a group through the creator's Welcome sees the
/// creator's members and exports the creator's SRTP keys, for every stream.
pub proof fn law_joiner_exports_the_creators_keys(
    creator: MlsGroup,
    joiner: MlsGroup,
    welcome_bytes: Seq<u8>,
    welcome: Welcome,
    ssrc: u32,
)
    requires
        crate::messaging::welcomes_into(welcome_bytes, crate::messaging::epoch_of(creator)),
        crate::messaging::tls_message(welcome_bytes) matches Some(message)
            && crate::messaging::message_welcome(message) == Some(welcome),
        crate::messaging::welcome_epoch(welcome) is Some ==> crate::messaging::epoch_of(joiner)
            == crate::messaging::welcome_epoch(welcome)->0,
    ensures
        crate::messaging::epoch_of(joiner) == crate::messaging::epoch_of(creator),
        crate::keying::mls::exported_master_key(joiner, ssrc)
            == crate::keying::mls::exported_master_key(creator, ssrc),
        crate::keying::mls::exported_master_salt(joiner, ssrc)
            == crate::keying::mls::exported_master_salt(creator, ssrc),
{
}

/// Law: a member that follows another's commit exports that member's SRTP
/// keys of the new epoch, for every stream.
pub proof fn law_follower_exports_the_committers_keys(
    committer: MlsGroup,
    follower: MlsGroup,
    commit: Seq<u8>,
    ssrc: u32,
)
    requires
        crate::messaging::commits_to(commit, crate::messaging::epoch_of(committer)),
        crate::messaging::tls_message(commit) matches Some(message) && (
        crate::messaging::commit_epoch(message) matches Some(epoch)
            ==> crate::messaging::epoch_of(follower) == epoch),
    ensures
        crate::messaging::epoch_of(follower) == crate::messaging::epoch_of(committer),
        crate::keying::mls::exported_master_key(follower, ssrc)
            == crate::keying::mls::exported_master_key(committer, ssrc),
        crate::keying::mls::exported_master_salt(follower, ssrc)
            == crate::keying::mls::exported_master_salt(committer, ssrc),
{
}

/// A member and its view of the group.
pub struct Seat {
    pub member: MlsMember,
    pub group: MlsGroup,
}

impl Seat {
    /// Whether the seat can commit to its group and export from it.
    pub open spec fn ready(&self) -> bool {
        &&& crate::crypto::group_active(self.group)
        &&& !crate::messaging::has_proposals(self.group)
    }
}

/// Adding one member adds its identity to the epoch's.
proof fn lemma_identity_added(
    before: (Set<(Seq<u8>, Seq<u8>)>, (u16, Seq<u8>), nat),
    after: (Set<(Seq<u8>, Seq<u8>)>, (u16, Seq<u8>), nat),
    package: KeyPackage,
)
    requires
        after.0 == before.0.union(crate::messaging::added_members(seq![package])),
    ensures
        identities(after) == identities(before).insert(
            crate::messaging::package_member(package).0,
        ),
{
    let added = crate::messaging::package_member(package);
    let list = seq![package].map_values(|p: KeyPackage| crate::messaging::package_member(p));
    assert(list.len() == 1 && list[0] == added);
    lemma_singleton_set(list);
    let first = |m: (Seq<u8>, Seq<u8>)| m.0;
    assert forall|id: Seq<u8>| #[trigger] identities(after).contains(id) == identities(
        before,
    ).insert(added.0).contains(id) by {
        if identities(after).contains(id) {
            let m = choose|m: (Seq<u8>, Seq<u8>)| after.0.contains(m) && id == first(m);
            if m != added {
                assert(before.0.contains(m) && id == first(m));
            }
        }
        if identities(before).contains(id) {
            let m = choose|m: (Seq<u8>, Seq<u8>)| before.0.contains(m) && id == first(m);
            assert(after.0.contains(m) && id == first(m));
        }
        if id == added.0 {
            assert(after.0.contains(added) && id == first(added));
        }
    }
    assert(identities(after) =~= identities(before).insert(added.0));
}

/// Where a failed enrolment leaves the creator's group: as it stood where the
/// newcomer could not be added, and with the newcomer in it where the newcomer
/// could not join or refresh its keys, or the creator could not follow. A merge
/// that fails may have been halfway. The messages that the two sides write are
/// always read for what they are, so no other failure comes.
pub open spec fn enroll_failed(
    before: MlsGroup,
    after: MlsGroup,
    identity: Seq<u8>,
    e: GroupError,
) -> bool {
    match e {
        GroupError::Add(_) => crate::messaging::stands_still(before, after),
        GroupError::Merge(_) => true,
        _ => {
            &&& e is Encode || e is Join || e is Update || e is Process
            &&& crate::crypto::group_active(after)
            &&& !crate::messaging::has_proposals(after)
            &&& identities(crate::messaging::epoch_of(after)) == identities(
                crate::messaging::epoch_of(before),
            ).insert(identity)
            &&& crate::messaging::moved_on(before, after, 1)
        },
    }
}

/// Whether bytes hold a commit that starts a group's next epoch, with a newcomer
/// in it.
pub open spec fn takes_in(bytes: Seq<u8>, group: MlsGroup, identity: Seq<u8>) -> bool {
    &&& crate::messaging::tls_message(bytes) matches Some(message)
    &&& crate::messaging::commit_epoch(message) matches Some(entered)
    &&& identities(entered) == identities(crate::messaging::epoch_of(group)).insert(identity)
    &&& (entered.1).0 == crate::crypto::exporter_state(group).0
    &&& crate::messaging::epochs_later(crate::messaging::epoch_number(group), entered.2, 1)
}

/// Takes a new member into a group: the creator adds it, it joins through the
/// Welcome and refreshes its keys at once, so that its leaf is not blank, and
/// the creator follows. Two epochs begin, one by each commit. Returns the new
/// member's seat, and the two commits for whoever else is in the group, in the
/// order in which they are followed.
pub fn enroll(creator: &mut MlsGroup, host: &MlsMember, identity: &str) -> (r: Result<
    (Seat, Vec<u8>, Vec<u8>),
    GroupError,
>)
    requires
        !crate::messaging::has_proposals(*old(creator)),
        crate::bytes::text_bytes(identity@).len() <= 0x2000_0000,
    ensures
        match r {
            Ok((seat, added, updated)) => {
                &&& seat.ready()
                &&& seat.member.identity() == crate::bytes::text_bytes(identity@)
                &&& crate::crypto::group_active(*final(creator))
                &&& !crate::messaging::has_proposals(*final(creator))
                &&& crate::messaging::epoch_of(*final(creator)) == crate::messaging::epoch_of(
                    seat.group,
                )
                &&& identities(crate::messaging::epoch_of(*final(creator))) == identities(
                    crate::messaging::epoch_of(*old(creator)),
                ).insert(crate::bytes::text_bytes(identity@))
                &&& crate::messaging::moved_on(*old(creator), *final(creator), 2)
                &&& takes_in(added@, *old(creator), crate::bytes::text_bytes(identity@))
                &&& crate::messaging::commits_to(
                    updated@,
                    crate::messaging::epoch_of(*final(creator)),
                )
            },
            Err(e) => enroll_failed(
                *old(creator),
                *final(creator),
                crate::bytes::text_bytes(identity@),
                e,
            ),
        },
{
    let member = MlsMember::new(identity);
    let bundle = member.generate_key_package();
    let package = public_package(&bundle);
    let ghost newcomer = package;
    let ghost before = crate::messaging::epoch_of(*creator);
    let mut packages: Vec<KeyPackage> = Vec::new();
    packages.push(package);
    assert(packages@ =~= seq![newcomer]);
    let (added, welcome) = match invite(creator, &host.provider, &host.signer, &packages) {
        Ok(messages) => messages,
        Err(e) => {
            proof {
                if e is Encode {
                    lemma_identity_added(
                        before,
                        crate::messaging::epoch_of(*creator),
                        newcomer,
                    );
                }
            }
            return Err(e);
        },
    };
    let ghost entered = crate::messaging::epoch_of(*creator);
    proof {
        lemma_identity_added(before, entered, newcomer);
    }
    let welcome = match read_welcome(welcome.as_slice()) {
        Ok(welcome) => welcome,
        Err(e) => {
            return Err(e);
        },
    };
    let mut group = match join_group(&member, welcome) {
        Ok(group) => group,
        Err(e) => {
            return Err(e);
        },
    };
    let updated = match create_rekey_commit(&mut group, &member.provider, &member.signer) {
        Ok(commit) => commit,
        Err(e) => {
            return Err(e);
        },
    };
    match process_commit(creator, &host.provider, updated.as_slice()) {
        Ok(_) => {},
        Err(e) => {
            return Err(e);
        },
    }
    Ok((Seat { member, group }, added, updated))
}

/// The identity of the `i`th member of a group that is set up for measuring.
pub open spec fn member_name(i: nat) -> Seq<char> {
    "member-"@ + crate::text::decimal(i) + ":member"@
}

/// The identities of the first `n` members of such a group.
pub open spec fn member_identities(n: nat) -> Set<Seq<u8>> {
    Set::new(
        |id: Seq<u8>|
            exists|i: nat| i < n && id == crate::bytes::text_bytes(#[trigger] member_name(i)),
    )
}

/// One more member adds its identity.
proof fn lemma_next_member(n: nat)
    ensures
        member_identities(n + 1) == member_identities(n).insert(
            crate::bytes::text_bytes(member_name(n)),
        ),
{
    assert forall|id: Seq<u8>| #[trigger] member_identities(n + 1).contains(id)
        == member_identities(n).insert(crate::bytes::text_bytes(member_name(n))).contains(id) by {
        if id == crate::bytes::text_bytes(member_name(n)) {
            assert(n < n + 1);
        }
    }
    assert(member_identities(n + 1) =~= member_identities(n).insert(
        crate::bytes::text_bytes(member_name(n)),
    ));
}

/// Names the `i`th member.
fn name_member(i: u32) -> (r: String)
    ensures
        r@ == member_name(i as nat),
        crate::bytes::text_bytes(r@).len() <= 0x2000_0000,
{
    let name = joined(joined("member-", decimal_text(i).as_str()).as_str(), ":member");
    proof {
        crate::text::lemma_decimal_ascii(i as nat);
        reveal_with_fuel(crate::text::ten_to, 11);
        crate::text::lemma_decimal_len(i as nat, 10);
        reveal_strlit("member-");
        reveal_strlit(":member");
        vstd::utf8::is_ascii_chars_encode_utf8(name@);
    }
    name
}

/// Sets up a group of `n` members, added one by one, and returns the creator's
/// seat and the first joiner's. The others are there to grow the group's tree.
/// Each one refreshes its keys once it is in, so two epochs begin per joiner.
/// It fails where the creator cannot start the group, where somebody cannot be
/// added, join or refresh its keys, or where one of the two cannot follow; what
/// the members write to each other is always read for what it is.
pub fn setup_group(n: u32) -> (r: Result<(Seat, Seat), GroupError>)
    requires
        n >= 2,
    ensures
        match r {
            Ok((creator, joiner)) => {
                &&& creator.ready()
                &&& joiner.ready()
                &&& creator.member.identity() == crate::bytes::text_bytes(member_name(0))
                &&& joiner.member.identity() == crate::bytes::text_bytes(member_name(1))
                &&& crate::messaging::epoch_of(creator.group) == crate::messaging::epoch_of(
                    joiner.group,
                )
                &&& identities(crate::messaging::epoch_of(creator.group)) == member_identities(
                    n as nat,
                )
                &&& crate::messaging::epoch_number(creator.group) == 2 * (n - 1)
                &&& crate::crypto::exporter_state(creator.group).0 == CIPHERSUITE
            },
            Err(e) => {
                ||| e is Create
                ||| e is Add
                ||| e is Merge
                ||| e is Encode
                ||| e is Join
                ||| e is Update
                ||| e is Process
            },
        },
{
    let host = MlsMember::new(name_member(0).as_str());
    let mut group = match new_group(
        CIPHERSUITE,
        &host.provider,
        &host.signer,
        &host.credential_with_key,
    ) {
        Ok(group) => group,
        Err(e) => {
            return Err(GroupError::Create(e));
        },
    };
    proof {
        let founder = crate::messaging::members_of(group)[0];
        lemma_singleton_set(crate::messaging::members_of(group));
        let alone = crate::messaging::epoch_of(group);
        let first = |m: (Seq<u8>, Seq<u8>)| m.0;
        assert forall|id: Seq<u8>| #[trigger] identities(alone).contains(id) == member_identities(
            1,
        ).contains(id) by {
            if id == founder.0 {
                assert(alone.0.contains(founder) && id == first(founder));
                assert(id == crate::bytes::text_bytes(member_name(0)));
            }
        }
        assert(identities(alone) =~= member_identities(1));
    }
    let mut joiner = match enroll(&mut group, &host, name_member(1).as_str()) {
        Ok((seat, _, _)) => seat,
        Err(e) => {
            return Err(e);
        },
    };
    proof {
        lemma_next_member(1);
    }
    let mut i: u32 = 2;
    while i < n
        invariant
            2 <= i <= n,
            crate::crypto::group_active(group),
            !crate::messaging::has_proposals(group),
            joiner.ready(),
            joiner.member.identity() == crate::bytes::text_bytes(member_name(1)),
            crate::messaging::epoch_of(group) == crate::messaging::epoch_of(joiner.group),
            identities(crate::messaging::epoch_of(group)) == member_identities(i as nat),
            crate::messaging::epoch_number(group) == 2 * (i - 1),
            crate::crypto::exporter_state(group).0 == CIPHERSUITE,
        decreases n - i,
    {
        proof {
            lemma_next_member(i as nat);
        }
        let (added, updated) = match enroll(&mut group, &host, name_member(i).as_str()) {
            Ok((_, added, updated)) => (added, updated),
            Err(e) => {
                return Err(e);
            },
        };
        match process_commit(&mut joiner.group, &joiner.member.provider, added.as_slice()) {
            Ok(_) => {},
            Err(e) => {
                return Err(e);
            },
        }
        match process_commit(&mut joiner.group, &joiner.member.provider, updated.as_slice()) {
            Ok(_) => {},
            Err(e) => {
                return Err(e);
            },
        }
        i += 1;
    }
    Ok((Seat { member: host, group }, joiner))
}

/// Law: a group that was created holds its creator and its peers and nobody else.
/// It is in epoch 1 under the ciphersuite in use, and its Welcome leads into just
/// this epoch.
pub proof fn law_created_group_holds_its_peers(
    member: &MlsMember,
    peers: Seq<KeyPackage>,
    group: MlsGroup,
    welcome: Vec<u8>,
    m: (Seq<u8>, Seq<u8>),
)
    requires
        created(member, peers, Ok((group, welcome))),
    ensures
        crate::messaging::members_of(group).contains(m) <==> m == (
            member.identity(),
            crate::crypto::credential_key(member.credential_with_key),
        ) || exists|i: int|
            0 <= i < peers.len() && crate::messaging::package_member(#[trigger] peers[i]) == m,
        crate::messaging::epoch_number(group) == 1,
        crate::crypto::exporter_state(group).0 == 1,
        crate::crypto::group_active(group),
        !crate::messaging::has_proposals(group),
        crate::messaging::tls_message(welcome@) is Some,
        ({
            let message = crate::messaging::tls_message(welcome@)->0;
            &&& crate::messaging::message_welcome(message) is Some
            &&& crate::messaging::welcome_epoch(crate::messaging::message_welcome(message)->0)
                == Some(
                (
                    crate::messaging::members_of(group).to_set(),
                    crate::crypto::exporter_state(group),
                    crate::messaging::epoch_number(group),
                ),
            )
        }),
{
    let added = peers.map_values(|p: KeyPackage| crate::messaging::package_member(p));
    let all = crate::messaging::members_of(group);
    assert(all.contains(m) <==> all.to_set().contains(m));
    assert(added.contains(m) <==> added.to_set().contains(m));
    if added.contains(m) {
        let i = choose|i: int| 0 <= i < added.len() && added[i] == m;
        assert(crate::messaging::package_member(peers[i]) == m);
    }
    if exists|i: int|
        0 <= i < peers.len() && crate::messaging::package_member(#[trigger] peers[i]) == m {
        let i = choose|i: int|
            0 <= i < peers.len() && crate::messaging::package_member(#[trigger] peers[i]) == m;
        assert(added[i] == m);
    }
}

/// Law: an epoch's identities are those of its members.
pub proof fn law_identities_are_the_members(group: MlsGroup, id: Seq<u8>)
    ensures
        identities(crate::messaging::epoch_of(group)).contains(id) <==> exists|i: int|
            0 <= i < crate::messaging::members_of(group).len() && (
            #[trigger] crate::messaging::members_of(group)[i]).0 == id,
{
    let all = crate::messaging::members_of(group);
    let first = |m: (Seq<u8>, Seq<u8>)| m.0;
    let set = all.to_set();
    if identities(crate::messaging::epoch_of(group)).contains(id) {
        let m = choose|m: (Seq<u8>, Seq<u8>)| set.contains(m) && id == #[trigger] first(m);
        let i = choose|i: int| 0 <= i < all.len() && all[i] == m;
        assert(all[i].0 == id);
    }
    if exists|i: int| 0 <= i < all.len() && (#[trigger] all[i]).0 == id {
        let i = choose|i: int| 0 <= i < all.len() && (#[trigger] all[i]).0 == id;
        assert(set.contains(all[i]) && id == first(all[i]));
    }
}

/// Law: the members of a group that is set up are numbered from zero, each with its
/// number between "member-" and ":member".
pub proof fn law_members_are_numbered(n: nat, id: Seq<u8>)
    ensures
        member_identities(n).contains(id) <==> exists|i: nat|
            i < n && id == crate::bytes::text_bytes(
                "member-"@ + #[trigger] crate::text::decimal(i) + ":member"@,
            ),
{
    if member_identities(n).contains(id) {
        let i = choose|i: nat| i < n && id == crate::bytes::text_bytes(#[trigger] member_name(i));
        assert(i < n && id == crate::bytes::text_bytes(
            "member-"@ + crate::text::decimal(i) + ":member"@,
        ));
    }
    if exists|i: nat|
        i < n && id == crate::bytes::text_bytes(
            "member-"@ + #[trigger] crate::text::decimal(i) + ":member"@,
        ) {
        let i = choose|i: nat|
            i < n && id == crate::bytes::text_bytes(
                "member-"@ + #[trigger] crate::text::decimal(i) + ":member"@,
            );
        assert(i < n && id == crate::bytes::text_bytes(member_name(i)));
    }
}

/// Law: why a peer is turned away. Its package does not parse, or does not
/// validate, or carries another key than the registered one.
pub proof fn law_rejections_have_their_cause(bytes: Seq<u8>, key: Seq<u8>, e: PeerRejected)
    requires
        rejected(bytes, key, e),
    ensures
        e is Malformed <==> crate::messaging::tls_key_package(bytes) is None,
        e is KeyMismatch ==> crate::messaging::claimed_member(
            crate::messaging::tls_key_package(bytes)->0,
        ).1 != key,
{
}

/// Law: the commit that takes a member in leads one epoch on, under the same
/// ciphersuite, to the members of before and the new one.
pub proof fn law_new_member_is_taken_in(bytes: Seq<u8>, group: MlsGroup, identity: Seq<u8>)
    requires
        takes_in(bytes, group, identity),
    ensures
        crate::messaging::tls_message(bytes) is Some,
        ({
            let committed = crate::messaging::commit_epoch(crate::messaging::tls_message(bytes)->0);
            let entered = committed->0;
            &&& committed is Some
            &&& (entered.1).0 == crate::crypto::exporter_state(group).0
            &&& crate::messaging::epoch_number(group) < u64::MAX ==> entered.2
                == crate::messaging::epoch_number(group) + 1
            &&& identities(entered).contains(identity)
            &&& forall|id: Seq<u8>|
                id != identity ==> (#[trigger] identities(entered).contains(id) <==> identities(
                    crate::messaging::epoch_of(group),
                ).contains(id))
        }),
{
}

} // verus!
