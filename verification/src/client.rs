//! What a demo client decides between its network calls: its name, which
//! peers it waits for, whose keys it checks, which members send, which packets
//! it sends, and what it does with a datagram.

use openmls::prelude::{KeyPackage, MlsGroup};
use openmls_rust_crypto::RustCrypto;
use vstd::prelude::*;

use crate::bytes::{read_be32, same_bytes};
use crate::keying::group::{accept_peer, create_group, GroupError, PeerRejected};
use crate::keying::mls::{parse_credential_identity, MlsMember};
use crate::messaging::{crypto_of, group_members, hash_package, public_package};
use crate::text::{decimal_text, joined, lossy_text, same_text};
use crate::transport::rtp::{RtpPacket, RTP_HEADER_LEN};

verus! {

/// RTP payload type of the demo's audio packets.
pub const AUDIO_PAYLOAD_TYPE: u8 = 111;

/// Media clock ticks per audio frame: 20 ms at 48 kHz.
pub const AUDIO_FRAME_TICKS: u32 = 960;

/// The SRTP role a client plays on the network.
#[derive(Debug, Clone, Copy, PartialEq, Eq, Structural)]
pub enum Mode {
    /// Sends SRTP packets over multicast and creates the group.
    Sender,
    /// Receives SRTP packets from multicast and joins the group.
    Receiver,
}

impl Mode {
    /// The role as credentials spell it.
    pub open spec fn spelled(self) -> Seq<char> {
        match self {
            Mode::Sender => "sender"@,
            Mode::Receiver => "receiver"@,
        }
    }

    /// The role as credentials spell it.
    pub fn role(self) -> (r: &'static str)
        ensures
            r@ == self.spelled(),
    {
        match self {
            Mode::Sender => "sender",
            Mode::Receiver => "receiver",
        }
    }
}

/// How many key packages a client registers with the DS, which keeps one in
/// reserve and hands out the others.
pub const REGISTERED_PACKAGES: usize = 2;

/// Whether a key package adds this member and goes with its reference.
pub open spec fn registrable(member: &MlsMember, entry: (Vec<u8>, KeyPackage)) -> bool {
    &&& entry.0@ == crate::messaging::package_hash(entry.1)
    &&& crate::messaging::package_member(entry.1) == (
        member.identity(),
        crate::crypto::credential_key(member.credential_with_key),
    )
}

/// The key packages that a client registers with the DS: fresh ones that add
/// this member, each with the reference by which the DS calls it.
pub fn packages_to_register(member: &MlsMember) -> (r: Vec<(Vec<u8>, KeyPackage)>)
    requires
        crate::crypto::signer_ready(member.signer),
        member.identity().len() <= 0x2000_0000,
        crate::crypto::credential_key(member.credential_with_key).len() <= 0x1000_0000,
    ensures
        r@.len() == REGISTERED_PACKAGES,
        r@.len() == 2,
        forall|i: int| 0 <= i < r@.len() ==> registrable(member, #[trigger] r@[i]),
        forall|i: int|
            0 <= i < r@.len() ==> (#[trigger] r@[i]).0@ == crate::messaging::package_hash(r@[i].1)
                && crate::messaging::package_member(r@[i].1).0 == member.identity()
                && crate::messaging::package_member(r@[i].1).1 == crate::crypto::credential_key(
                member.credential_with_key,
            ),
{
    let mut packages: Vec<(Vec<u8>, KeyPackage)> = Vec::new();
    while packages.len() < REGISTERED_PACKAGES
        invariant
            packages@.len() <= REGISTERED_PACKAGES,
            crate::crypto::signer_ready(member.signer),
            member.identity().len() <= 0x2000_0000,
            crate::crypto::credential_key(member.credential_with_key).len() <= 0x1000_0000,
            forall|i: int|
                0 <= i < packages@.len() ==> registrable(member, #[trigger] packages@[i]),
        decreases REGISTERED_PACKAGES - packages@.len(),
    {
        let bundle = member.generate_key_package();
        let package = public_package(&bundle);
        let hash = hash_package(&package, crypto_of(&member.provider));
        packages.push((hash, package));
    }
    packages
}

/// The name of a client. Senders are always called "sender"; a receiver's name
/// carries its process id, for instance "receiver-48231".
pub open spec fn client_name(mode: Mode, process_id: u32) -> Seq<char> {
    match mode {
        Mode::Sender => "sender"@,
        Mode::Receiver => "receiver-"@ + crate::text::decimal(process_id as nat),
    }
}

/// Names a client after its mode and process id.
pub fn generate_name(mode: Mode, process_id: u32) -> (r: String)
    ensures
        r@ == client_name(mode, process_id),
        mode is Sender ==> r@ == "sender"@,
        mode is Receiver ==> r@ == "receiver-"@ + crate::text::decimal(process_id as nat),
{
    match mode {
        Mode::Sender => "sender".to_owned(),
        Mode::Receiver => joined("receiver-", decimal_text(process_id).as_str()),
    }
}

/// The credential identity of a client: `name:role`.
pub fn client_identity(name: &str, mode: Mode) -> (r: String)
    ensures
        r@ == name@ + ":"@ + mode.spelled(),
        mode is Sender ==> r@ == name@ + ":"@ + "sender"@,
        mode is Receiver ==> r@ == name@ + ":"@ + "receiver"@,
{
    joined(joined(name, ":").as_str(), mode.role())
}

/// The texts that strings hold.
pub open spec fn texts(strings: Seq<String>) -> Seq<Seq<char>> {
    strings.map_values(|s: String| s@)
}

/// The identities in a client list as texts, without one's own.
pub open spec fn peer_texts(clients: Seq<Vec<u8>>, me: Seq<char>) -> Seq<Seq<char>> {
    clients.map_values(|c: Vec<u8>| crate::text::utf8_lossy(c@)).filter(|t: Seq<char>| t != me)
}

/// The peers among the registered clients: all but oneself.
pub fn peers_of(clients: &Vec<Vec<u8>>, me: &str) -> (r: Vec<String>)
    ensures
        texts(r@) == peer_texts(clients@, me@),
{
    let ghost wanted = |t: Seq<char>| t != me@;
    let ghost named = clients@.map_values(|c: Vec<u8>| crate::text::utf8_lossy(c@));
    let mut peers: Vec<String> = Vec::new();
    let mut i: usize = 0;
    proof {
        reveal(Seq::filter);
        assert(named.take(0) =~= Seq::empty());
        assert(texts(peers@) =~= named.take(0).filter(wanted));
    }
    while i < clients.len()
        invariant
            i <= clients@.len(),
            wanted == (|t: Seq<char>| t != me@),
            named == clients@.map_values(|c: Vec<u8>| crate::text::utf8_lossy(c@)),
            texts(peers@) == named.take(i as int).filter(wanted),
        decreases clients@.len() - i,
    {
        let name = lossy_text(clients[i].as_slice());
        let ghost before = peers@;
        proof {
            reveal(Seq::filter);
            assert(named.take(i + 1).drop_last() =~= named.take(i as int));
            assert(named.take(i + 1).last() == name@);
        }
        if !same_text(name.as_str(), me) {
            peers.push(name);
            assert(texts(peers@) =~= texts(before).push(peers@.last()@));
        }
        i += 1;
    }
    assert(named.take(i as int) =~= named);
    peers
}

/// The peers among the registered clients, once there are at least as many as
/// expected; `None` while the creator has to go on waiting.
pub fn discover(clients: &Vec<Vec<u8>>, me: &str, receivers: u32) -> (r: Option<Vec<String>>)
    ensures
        match r {
            Some(peers) => {
                &&& texts(peers@) == peer_texts(clients@, me@)
                &&& peers@.len() >= receivers
            },
            None => peer_texts(clients@, me@).len() < receivers,
        },
{
    let peers = peers_of(clients, me);
    assert(texts(peers@).len() == peers@.len());
    if peers.len() >= receivers as usize {
        Some(peers)
    } else {
        None
    }
}

/// What a [`GroupCreation`] has found out.
#[verifier::ext_equal]
pub struct CreationState {
    /// The creator's own identity.
    pub me: Seq<char>,
    /// How many peers it waits for.
    pub receivers: u32,
    /// The peers, once there are enough.
    pub peers: Option<Seq<Seq<char>>>,
    /// The accepted key packages of the first peers.
    pub packages: Seq<KeyPackage>,
    /// The keys that these peers registered.
    pub keys: Seq<Seq<u8>>,
    /// The next peer's key package, not checked yet.
    pub fetched: Option<Seq<u8>>,
}

impl CreationState {
    /// There are enough peers before there are packages, packages come in the
    /// peers' order, and every accepted package carries its peer's registered
    /// key.
    pub open spec fn wf(self) -> bool {
        &&& self.keys.len() == self.packages.len()
        &&& forall|i: int|
            0 <= i < self.packages.len() ==> crate::messaging::package_member(
                #[trigger] self.packages[i],
            ).1 == self.keys[i]
        &&& match self.peers {
            Some(peers) => {
                &&& peers.len() >= self.receivers
                &&& self.packages.len() < peers.len() || (self.packages.len() == peers.len()
                    && self.fetched is None)
            },
            None => self.packages.len() == 0 && self.fetched is None,
        }
    }

    /// Whether every peer's package is there.
    pub open spec fn complete(self) -> bool {
        self.peers matches Some(peers) && self.packages.len() == peers.len()
    }
}

/// What a group's creator has to do next.
pub enum CreationStep<'a> {
    /// List the clients at the DS.
    ListClients,
    /// Fetch this peer's key package from the DS.
    FetchPackage(&'a String),
    /// Look up this peer's key at the AS.
    LookUpKey(&'a String),
    /// Create the group.
    Create,
}

/// A group's creator on its way: it waits for peers, and then fetches and
/// checks their key packages one by one.
pub struct GroupCreation {
    me: String,
    receivers: u32,
    peers: Option<Vec<String>>,
    packages: Vec<KeyPackage>,
    keys: Ghost<Seq<Seq<u8>>>,
    fetched: Option<Vec<u8>>,
}

impl View for GroupCreation {
    type V = CreationState;

    closed spec fn view(&self) -> CreationState {
        CreationState {
            me: self.me@,
            receivers: self.receivers,
            peers: match self.peers {
                Some(peers) => Some(texts(peers@)),
                None => None,
            },
            packages: self.packages@,
            keys: self.keys@,
            fetched: match self.fetched {
                Some(bytes) => Some(bytes@),
                None => None,
            },
        }
    }
}

impl GroupCreation {
    /// A creator that waits for so many peers.
    pub fn new(me: String, receivers: u32) -> (r: Self)
        ensures
            r@.wf(),
            r@ == (CreationState {
                me: me@,
                receivers,
                peers: None,
                packages: Seq::empty(),
                keys: Seq::empty(),
                fetched: None,
            }),
    {
        GroupCreation {
            me,
            receivers,
            peers: None,
            packages: Vec::new(),
            keys: Ghost(Seq::empty()),
            fetched: None,
        }
    }

    /// What to do next.
    pub fn step(&self) -> (r: CreationStep<'_>)
        requires
            self@.wf(),
        ensures
            match r {
                CreationStep::ListClients => self@.peers is None,
                CreationStep::FetchPackage(peer) => {
                    &&& self@.peers is Some
                    &&& !self@.complete()
                    &&& self@.fetched is None
                    &&& peer@ == self@.peers->0[self@.packages.len() as int]
                },
                CreationStep::LookUpKey(peer) => {
                    &&& self@.peers is Some
                    &&& !self@.complete()
                    &&& self@.fetched is Some
                    &&& peer@ == self@.peers->0[self@.packages.len() as int]
                },
                CreationStep::Create => self@.complete(),
            },
    {
        match &self.peers {
            None => CreationStep::ListClients,
            Some(peers) => {
                assert(texts(peers@).len() == peers@.len());
                let next: usize = self.packages.len();
                if next == peers.len() {
                    CreationStep::Create
                } else if self.fetched.is_some() {
                    CreationStep::LookUpKey(&peers[next])
                } else {
                    CreationStep::FetchPackage(&peers[next])
                }
            },
        }
    }

    /// Takes the DS's client list. Whether there are enough peers; if not, the
    /// list is asked for again later.
    pub fn on_clients(&mut self, clients: &Vec<Vec<u8>>) -> (r: bool)
        requires
            old(self)@.wf(),
            old(self)@.peers is None,
        ensures
            final(self)@.wf(),
            r == (peer_texts(clients@, old(self)@.me).len() >= old(self)@.receivers),
            final(self)@ == if r {
                CreationState { peers: Some(peer_texts(clients@, old(self)@.me)), ..old(self)@ }
            } else {
                old(self)@
            },
    {
        match discover(clients, self.me.as_str(), self.receivers) {
            Some(peers) => {
                assert(texts(peers@).len() == peers@.len());
                self.peers = Some(peers);
                true
            },
            None => false,
        }
    }

    /// Takes the DS's answer to a fetch. Whether there was a package; if not,
    /// it is fetched again later.
    pub fn on_package(&mut self, package: Option<Vec<u8>>) -> (r: bool)
        requires
            old(self)@.wf(),
            old(self)@.peers is Some,
            !old(self)@.complete(),
            old(self)@.fetched is None,
        ensures
            final(self)@.wf(),
            r == (package is Some),
            match package {
                Some(bytes) => final(self)@ == (CreationState {
                    fetched: Some(bytes@),
                    ..old(self)@
                }),
                None => final(self)@ == old(self)@,
            },
    {
        match package {
            Some(bytes) => {
                self.fetched = Some(bytes);
                true
            },
            None => false,
        }
    }

    /// Takes the key that the AS has on record for the peer, and accepts the
    /// peer's package if it is valid and carries that key.
    pub fn on_key(&mut self, crypto: &RustCrypto, registered_key: &[u8]) -> (r: Result<
        (),
        PeerRejected,
    >)
        requires
            old(self)@.wf(),
            old(self)@.fetched is Some,
        ensures
            final(self)@.wf(),
            match r {
                Ok(_) => {
                    &&& crate::messaging::tls_key_package(old(self)@.fetched->0) matches Some(
                        incoming,
                    )
                    &&& crate::messaging::package_member(final(self)@.packages.last())
                        == crate::messaging::claimed_member(incoming)
                    &&& crate::messaging::claimed_member(incoming).1 == registered_key@
                    &&& final(self)@.packages.len() == old(self)@.packages.len() + 1
                    &&& final(self)@ == (CreationState {
                        packages: old(self)@.packages.push(final(self)@.packages.last()),
                        keys: old(self)@.keys.push(registered_key@),
                        fetched: None,
                        ..old(self)@
                    })
                },
                Err(e) => {
                    &&& final(self)@ == old(self)@
                    &&& crate::keying::group::rejected(old(self)@.fetched->0, registered_key@, e)
                },
            },
    {
        let accepted = match &self.fetched {
            Some(bytes) => accept_peer(crypto, bytes.as_slice(), registered_key),
            None => Err(PeerRejected::KeyMismatch),
        };
        match accepted {
            Ok(package) => {
                let ghost before = self@;
                self.packages.push(package);
                self.fetched = None;
                self.keys = Ghost(before.keys.push(registered_key@));
                proof {
                    assert(self@.packages.drop_last() =~= before.packages);
                    assert forall|i: int| 0 <= i < self@.packages.len() implies
                        crate::messaging::package_member(#[trigger] self@.packages[i]).1
                        == self@.keys[i] by {
                        if i < before.packages.len() {
                            assert(self@.packages[i] == before.packages[i]);
                        }
                    }
                }
                Ok(())
            },
            Err(e) => Err(e),
        }
    }

    /// Creates the group with all peers in it. Returns the group and the
    /// Welcome for the peers, as it travels.
    pub fn create(&self, member: &MlsMember) -> (r: Result<(MlsGroup, Vec<u8>), GroupError>)
        requires
            self@.complete(),
        ensures
            crate::keying::group::created(member, self@.packages, r),
    {
        create_group(member, &self.packages)
    }
}

/// Law: a group is created only with enough peers. Once the creator may create
/// it, every peer's package is there, and there are at least as many as it waits
/// for.
pub proof fn law_group_waits_for_its_peers(s: CreationState)
    requires
        s.wf(),
        s.complete(),
    ensures
        s.peers matches Some(peers) && s.packages.len() == peers.len(),
        s.packages.len() >= s.receivers,
{
}

/// Law: whoever is in a new group is its creator or has a registered key. No
/// key gets in that was not looked up at the AS.
pub proof fn law_only_registered_keys_get_in(
    s: CreationState,
    creator: (Seq<u8>, Seq<u8>),
    member: (Seq<u8>, Seq<u8>),
)
    requires
        s.wf(),
        set![creator].union(crate::messaging::added_members(s.packages)).contains(member),
    ensures
        member == creator || s.keys.contains(member.1),
{
    if member != creator {
        let added = s.packages.map_values(|p: KeyPackage| crate::messaging::package_member(p));
        let i = choose|i: int| 0 <= i < added.len() && added[i] == member;
        assert(crate::messaging::package_member(s.packages[i]).1 == s.keys[i]);
    }
}

/// A group member as the others see it.
pub struct GroupMember {
    /// The identity that the member's credential asserts, as text.
    pub identity: String,
    /// The member's signature key in the group's tree.
    pub signature_key: Vec<u8>,
}

impl View for GroupMember {
    type V = (Seq<char>, Seq<u8>);

    open spec fn view(&self) -> (Seq<char>, Seq<u8>) {
        (self.identity@, self.signature_key@)
    }
}

/// What a list of members says.
pub open spec fn entries(members: Seq<GroupMember>) -> Seq<(Seq<char>, Seq<u8>)> {
    members.map_values(|m: GroupMember| m@)
}

/// The members of a group, each with its identity as text and its key.
pub open spec fn roster_of(group: MlsGroup) -> Seq<(Seq<char>, Seq<u8>)> {
    crate::messaging::members_of(group).map_values(
        |m: (Seq<u8>, Seq<u8>)| (crate::text::utf8_lossy(m.0), m.1),
    )
}

/// Lists the members of a group.
pub fn roster(group: &MlsGroup) -> (r: Vec<GroupMember>)
    ensures
        entries(r@) == roster_of(*group),
        r@.len() == crate::messaging::members_of(*group).len(),
        forall|i: int|
            0 <= i < r@.len() ==> (#[trigger] r@[i]).identity@ == crate::text::utf8_lossy(
                crate::messaging::members_of(*group)[i].0,
            ) && r@[i].signature_key@ == crate::messaging::members_of(*group)[i].1,
{
    let members = group_members(group);
    let ghost plain = members@.map_values(|m: (Vec<u8>, Vec<u8>)| (m.0@, m.1@));
    let mut list: Vec<GroupMember> = Vec::new();
    let mut i: usize = 0;
    while i < members.len()
        invariant
            i <= members@.len(),
            plain == members@.map_values(|m: (Vec<u8>, Vec<u8>)| (m.0@, m.1@)),
            plain == crate::messaging::members_of(*group),
            list@.len() == i,
            forall|j: int| 0 <= j < i ==> (#[trigger] list@[j])@ == roster_of(*group)[j],
        decreases members@.len() - i,
    {
        assert(plain[i as int] == (members@[i as int].0@, members@[i as int].1@));
        let identity = lossy_text(members[i].0.as_slice());
        let signature_key = vstd::slice::slice_to_vec(members[i].1.as_slice());
        list.push(GroupMember { identity, signature_key });
        i += 1;
    }
    assert(entries(list@) =~= roster_of(*group));
    assert forall|j: int| 0 <= j < list@.len() implies (#[trigger] list@[j]).identity@
        == crate::text::utf8_lossy(crate::messaging::members_of(*group)[j].0)
        && list@[j].signature_key@ == crate::messaging::members_of(*group)[j].1 by {
        assert(list@[j]@ == roster_of(*group)[j]);
    }
    list
}

/// The members whose keys a client checks against the AS: all but itself.
pub fn members_to_verify<'a>(members: &'a Vec<GroupMember>, me: &str) -> (r: Vec<&'a GroupMember>)
    ensures
        r@.map_values(|m: &GroupMember| m@) == entries(members@).filter(
            |m: (Seq<char>, Seq<u8>)| m.0 != me@,
        ),
{
    let ghost wanted = |m: (Seq<char>, Seq<u8>)| m.0 != me@;
    let ghost all = entries(members@);
    let mut others: Vec<&GroupMember> = Vec::new();
    let mut i: usize = 0;
    proof {
        reveal(Seq::filter);
        assert(all.take(0) =~= Seq::empty());
        assert(others@.map_values(|m: &GroupMember| m@) =~= all.take(0).filter(wanted));
    }
    while i < members.len()
        invariant
            i <= members@.len(),
            wanted == (|m: (Seq<char>, Seq<u8>)| m.0 != me@),
            all == entries(members@),
            others@.map_values(|m: &GroupMember| m@) == all.take(i as int).filter(wanted),
        decreases members@.len() - i,
    {
        let ghost before = others@.map_values(|m: &GroupMember| m@);
        proof {
            reveal(Seq::filter);
            assert(all.take(i + 1).drop_last() =~= all.take(i as int));
            assert(all.take(i + 1).last() == members@[i as int]@);
        }
        if !same_text(members[i].identity.as_str(), me) {
            others.push(&members[i]);
            assert(others@.map_values(|m: &GroupMember| m@) =~= before.push(
                members@[i as int]@,
            ));
        }
        i += 1;
    }
    assert(all.take(i as int) =~= all);
    others
}

impl GroupMember {
    /// Whether the member's key in the group's tree is the one that it
    /// registered with the AS.
    pub fn has_key(&self, registered_key: &[u8]) -> (r: bool)
        ensures
            r == (self.signature_key@ == registered_key@),
    {
        same_bytes(self.signature_key.as_slice(), registered_key)
    }
}

/// The first member with this identity, if there is one.
pub fn member_named<'a>(members: &'a Vec<GroupMember>, identity: &str) -> (r: Option<
    &'a GroupMember,
>)
    ensures
        match r {
            Some(found) => exists|i: int|
                0 <= i < members@.len() && *found == #[trigger] members@[i] && found.identity@
                    == identity@ && forall|j: int|
                    0 <= j < i ==> (#[trigger] members@[j]).identity@ != identity@,
            None => forall|j: int|
                0 <= j < members@.len() ==> (#[trigger] members@[j]).identity@ != identity@,
        },
{
    let mut i: usize = 0;
    while i < members.len()
        invariant
            i <= members@.len(),
            forall|j: int| 0 <= j < i ==> (#[trigger] members@[j]).identity@ != identity@,
        decreases members@.len() - i,
    {
        if same_text(members[i].identity.as_str(), identity) {
            return Some(&members[i]);
        }
        i += 1;
    }
    None
}

/// Whether an identity carries the sender's role: it ends in ":sender".
pub open spec fn sends(identity: Seq<char>) -> bool {
    &&& identity.len() >= ":sender"@.len()
    &&& identity.skip(identity.len() - ":sender"@.len()) == ":sender"@
}

/// The role of an identity decides whether it sends.
proof fn lemma_sends(identity: Seq<char>, label: Seq<char>, role: Seq<char>)
    requires
        identity == label + seq![':'] + role,
        !role.contains(':'),
    ensures
        sends(identity) == (role == "sender"@),
{
    reveal_strlit("sender");
    reveal_strlit(":sender");
    let tail = ":sender"@;
    assert(tail =~= seq![':'] + "sender"@);
    let n = identity.len() as int;
    if role == "sender"@ {
        assert(identity.skip(n - 7) =~= tail);
    }
    if sends(identity) {
        let cut = identity.skip(n - 7);
        assert(cut[0] == ':');
        assert(identity[n - 7] == ':');
        if role.len() > 6 {
            assert(identity[n - 7] == role[role.len() - 7]);
            assert(role.contains(':'));
        }
        if role.len() < 6 {
            let at = n - role.len() - 1;
            assert(identity[at] == ':');
            assert(cut[at - (n - 7)] == ':');
            assert(tail[at - (n - 7)] != ':');
        }
        assert(role.len() == 6);
        assert(role =~= "sender"@) by {
            assert forall|k: int| 0 <= k < 6 implies role[k] == "sender"@[k] by {
                assert(role[k] == identity[n - 6 + k]);
                assert(cut[k + 1] == identity[n - 6 + k]);
                assert(cut[k + 1] == tail[k + 1]);
            }
        }
    }
}

/// The identities of the members that send SRTP packets, in the group's order.
pub fn senders_among(members: &Vec<GroupMember>) -> (r: Vec<&String>)
    requires
        forall|i: int| 0 <= i < members@.len() ==> (#[trigger] members@[i]).identity@.contains(':'),
    ensures
        r@.map_values(|s: &String| s@) == entries(members@).map_values(
            |m: (Seq<char>, Seq<u8>)| m.0,
        ).filter(|t: Seq<char>| sends(t)),
{
    let ghost wanted = |t: Seq<char>| sends(t);
    let ghost all = entries(members@).map_values(|m: (Seq<char>, Seq<u8>)| m.0);
    let mut senders: Vec<&String> = Vec::new();
    let mut i: usize = 0;
    proof {
        reveal(Seq::filter);
        assert(all.take(0) =~= Seq::empty());
        assert(senders@.map_values(|s: &String| s@) =~= all.take(0).filter(wanted));
    }
    while i < members.len()
        invariant
            i <= members@.len(),
            forall|i: int|
                0 <= i < members@.len() ==> (#[trigger] members@[i]).identity@.contains(':'),
            wanted == (|t: Seq<char>| sends(t)),
            all == entries(members@).map_values(|m: (Seq<char>, Seq<u8>)| m.0),
            senders@.map_values(|s: &String| s@) == all.take(i as int).filter(wanted),
        decreases members@.len() - i,
    {
        let ghost before = senders@.map_values(|s: &String| s@);
        let (label, role) = parse_credential_identity(members[i].identity.as_str());
        proof {
            reveal(Seq::filter);
            assert(all.take(i + 1).drop_last() =~= all.take(i as int));
            assert(all.take(i + 1).last() == members@[i as int].identity@);
            lemma_sends(members@[i as int].identity@, label@, role@);
        }
        if same_text(role, "sender") {
            senders.push(&members[i].identity);
            assert(senders@.map_values(|s: &String| s@) =~= before.push(
                members@[i as int].identity@,
            ));
        }
        i += 1;
    }
    assert(all.take(i as int) =~= all);
    senders
}

/// How many packets a receiver expects: every sender's share.
pub fn expected_packets(senders: usize, packets: u32) -> (r: u32)
    requires
        senders * packets <= u32::MAX,
    ensures
        r == senders * packets,
{
    if packets == 0 {
        return 0;
    }
    assert(senders <= u32::MAX) by (nonlinear_arith)
        requires
            senders * packets <= u32::MAX,
            packets >= 1,
    ;
    senders as u32 * packets
}

/// What the payload of an audio packet says.
pub open spec fn audio_text(name: Seq<char>, frame: u32) -> Seq<char> {
    "Hello from "@ + name + " - audio frame "@ + crate::text::decimal(frame as nat)
}

/// The packet that a sender sends as its `frame`th: a text in place of audio,
/// one frame of ticks after the previous one.
pub fn audio_packet(name: &str, ssrc: u32, frame: u32) -> (r: RtpPacket)
    requires
        frame * AUDIO_FRAME_TICKS <= u32::MAX,
    ensures
        r.payload_type == AUDIO_PAYLOAD_TYPE,
        r.payload_type == 111,
        r.sequence_number == frame % 0x1_0000,
        r.timestamp == frame * AUDIO_FRAME_TICKS,
        r.timestamp == frame * 960,
        r.ssrc == ssrc,
        r.payload@ == crate::bytes::text_bytes(audio_text(name@, frame)),
        r.payload@ == crate::bytes::text_bytes(
            "Hello from "@ + name@ + " - audio frame "@ + crate::text::decimal(frame as nat),
        ),
{
    let text = joined(
        joined(joined("Hello from ", name).as_str(), " - audio frame ").as_str(),
        decimal_text(frame).as_str(),
    );
    RtpPacket {
        payload_type: AUDIO_PAYLOAD_TYPE,
        sequence_number: (frame % 0x1_0000) as u16,
        timestamp: frame * AUDIO_FRAME_TICKS,
        ssrc,
        payload: vstd::slice::slice_to_vec(text.as_str().as_bytes()),
    }
}

/// What to do with a datagram.
#[derive(Debug, Clone, Copy, PartialEq, Eq, Structural)]
pub enum Route {
    /// Shorter than an RTP header: skip it.
    TooShort,
    /// From no sender of the group: skip it.
    UnknownSsrc(u32),
    /// Decrypt it with this sender's session.
    Decrypt(u32),
}

/// A receiver's progress: the streams it can decrypt, and how many packets it
/// has and waits for.
pub struct Reception {
    ssrcs: Vec<u32>,
    received: u32,
    expected: u32,
}

impl Reception {
    /// The streams that the receiver can decrypt.
    pub closed spec fn streams(&self) -> Seq<u32> {
        self.ssrcs@
    }

    /// How many packets were received and decrypted.
    pub closed spec fn count(&self) -> u32 {
        self.received
    }

    /// How many packets the receiver waits for in all.
    pub closed spec fn goal(&self) -> u32 {
        self.expected
    }

    /// Starts a reception with nothing received yet.
    pub fn new(ssrcs: Vec<u32>, expected: u32) -> (r: Self)
        ensures
            r.streams() == ssrcs@,
            r.count() == 0,
            r.goal() == expected,
    {
        Reception { ssrcs, received: 0, expected }
    }

    /// How many packets were received and decrypted.
    pub fn received(&self) -> (r: u32)
        ensures
            r == self.count(),
    {
        self.received
    }

    /// Whether packets are still missing.
    pub fn wants_more(&self) -> (r: bool)
        ensures
            r == (self.count() < self.goal()),
    {
        self.received < self.expected
    }

    /// Decides what to do with a datagram, by the SSRC in its header: each
    /// sender has a key of its own.
    pub fn route(&self, datagram: &[u8]) -> (r: Route)
        ensures
            r == if datagram@.len() < RTP_HEADER_LEN {
                Route::TooShort
            } else if self.streams().contains(crate::transport::rtp::header_ssrc(datagram@)) {
                Route::Decrypt(crate::transport::rtp::header_ssrc(datagram@))
            } else {
                Route::UnknownSsrc(crate::transport::rtp::header_ssrc(datagram@))
            },
            r is TooShort <==> datagram@.len() < 12,
            datagram@.len() >= 12 ==> ({
                let ssrc = (datagram@[8] * 0x100_0000 + datagram@[9] * 0x1_0000 + datagram@[10]
                    * 0x100 + datagram@[11]) as u32;
                r == if self.streams().contains(ssrc) {
                    Route::Decrypt(ssrc)
                } else {
                    Route::UnknownSsrc(ssrc)
                }
            }),
    {
        if datagram.len() < RTP_HEADER_LEN {
            return Route::TooShort;
        }
        let ssrc: u32 = read_be32(datagram, 8);
        let mut i: usize = 0;
        while i < self.ssrcs.len()
            invariant
                i <= self.ssrcs@.len(),
                ssrc == crate::transport::rtp::header_ssrc(datagram@),
                datagram@.len() >= RTP_HEADER_LEN,
                forall|j: int| 0 <= j < i ==> self.ssrcs@[j] != ssrc,
            decreases self.ssrcs@.len() - i,
        {
            if self.ssrcs[i] == ssrc {
                assert(self.streams()[i as int] == ssrc);
                return Route::Decrypt(ssrc);
            }
            i += 1;
        }
        Route::UnknownSsrc(ssrc)
    }

    /// Takes a decrypted packet and counts it. `None`, and nothing counted,
    /// exactly when it is no RTP packet.
    pub fn deliver(&mut self, packet: &[u8]) -> (r: Option<RtpPacket>)
        requires
            old(self).count() < old(self).goal(),
        ensures
            final(self).streams() == old(self).streams(),
            final(self).goal() == old(self).goal(),
            match r {
                Some(rtp) => {
                    &&& packet@.len() >= RTP_HEADER_LEN
                    &&& rtp@ == crate::transport::rtp::rtp_fields(packet@)
                    &&& final(self).count() == old(self).count() + 1
                },
                None => {
                    &&& packet@.len() < RTP_HEADER_LEN
                    &&& final(self).count() == old(self).count()
                },
            },
    {
        match RtpPacket::from_bytes(packet) {
            Some(rtp) => {
                self.received += 1;
                Some(rtp)
            },
            None => None,
        }
    }
}

/// Law: what a sender puts on the wire, a receiver that knows the sender's
/// stream decrypts under that stream and reads back.
pub proof fn law_audio_packet_reaches_its_stream(
    packet: crate::transport::rtp::RtpFields,
    reception: Reception,
)
    requires
        reception.streams().contains(packet.ssrc),
        packet.payload_type == AUDIO_PAYLOAD_TYPE,
    ensures
        crate::transport::rtp::rtp_wire(packet).len() >= RTP_HEADER_LEN,
        reception.streams().contains(
            crate::transport::rtp::header_ssrc(crate::transport::rtp::rtp_wire(packet)),
        ),
        crate::transport::rtp::rtp_fields(crate::transport::rtp::rtp_wire(packet)) == packet,
{
    crate::transport::rtp::lemma_wire_header(packet);
    crate::transport::rtp::law_wire_roundtrip(packet);
}

/// Law: the peers are whoever else is on the list. Everybody on it but oneself is a
/// peer, as often as listed, and nobody else is.
pub proof fn law_peers_are_everybody_else(clients: Seq<Vec<u8>>, me: Seq<char>, name: Seq<char>)
    ensures
        peer_texts(clients, me).contains(name) <==> name != me && exists|i: int|
            0 <= i < clients.len() && crate::text::utf8_lossy((#[trigger] clients[i])@) == name,
        peer_texts(clients, me).len() <= clients.len(),
        (forall|i: int|
            0 <= i < clients.len() ==> crate::text::utf8_lossy((#[trigger] clients[i])@) != me)
            ==> peer_texts(clients, me).len() == clients.len(),
    decreases clients.len(),
{
    reveal(Seq::filter);
    let named = clients.map_values(|c: Vec<u8>| crate::text::utf8_lossy(c@));
    let wanted = |t: Seq<char>| t != me;
    if clients.len() > 0 {
        let rest = clients.drop_last();
        law_peers_are_everybody_else(rest, me, name);
        assert(named.drop_last() =~= rest.map_values(|c: Vec<u8>| crate::text::utf8_lossy(c@)));
        let before = peer_texts(rest, me);
        let now = peer_texts(clients, me);
        let last = crate::text::utf8_lossy(clients.last()@);
        assert(now == if last != me { before.push(last) } else { before });
        assert forall|i: int| 0 <= i < rest.len() implies rest[i] == clients[i] by {}
        assert(clients[clients.len() - 1] == clients.last());
        if now.contains(name) {
            let k = choose|k: int| 0 <= k < now.len() && now[k] == name;
            if k < before.len() {
                assert(before[k] == name);
                let i = choose|i: int|
                    0 <= i < rest.len() && crate::text::utf8_lossy((#[trigger] rest[i])@) == name;
                assert(crate::text::utf8_lossy(clients[i]@) == name);
            }
        }
        if name != me && exists|i: int|
            0 <= i < clients.len() && crate::text::utf8_lossy((#[trigger] clients[i])@) == name {
            let i = choose|i: int|
                0 <= i < clients.len() && crate::text::utf8_lossy((#[trigger] clients[i])@) == name;
            if i < rest.len() {
                assert(crate::text::utf8_lossy(rest[i]@) == name);
                let k = choose|k: int| 0 <= k < before.len() && before[k] == name;
                assert(now[k] == name);
            } else {
                assert(now[now.len() - 1] == name);
            }
        }
        if forall|i: int|
            0 <= i < clients.len() ==> crate::text::utf8_lossy((#[trigger] clients[i])@) != me {
            assert forall|i: int| 0 <= i < rest.len() implies crate::text::utf8_lossy(
                (#[trigger] rest[i])@,
            ) != me by {
                assert(crate::text::utf8_lossy(clients[i]@) != me);
            }
        }
    }
}

/// Law: an identity sends exactly if its role, behind the last colon, is "sender".
pub proof fn law_senders_have_the_senders_role(label: Seq<char>, role: Seq<char>)
    requires
        !role.contains(':'),
    ensures
        sends(label + seq![':'] + role) <==> role == seq!['s', 'e', 'n', 'd', 'e', 'r'],
{
    reveal_strlit("sender");
    lemma_sends(label + seq![':'] + role, label, role);
    assert("sender"@ =~= seq!['s', 'e', 'n', 'd', 'e', 'r']);
}

} // verus!
