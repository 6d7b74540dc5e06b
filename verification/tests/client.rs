//! A demo client's decisions.

use openmls::prelude::tls_codec::Serialize;
use openmls_traits::OpenMlsProvider;
use safecast::client::{
    audio_packet, client_identity, discover, expected_packets, generate_name,
    packages_to_register, peers_of, roster, CreationStep, GroupCreation, Mode, Reception, Route,
};
use safecast::keying::group::{join_group, read_welcome, PeerRejected};
use safecast::keying::mls::{export_srtp_keys, MlsMember};
use safecast::text::decimal_text;

#[test]
fn names_follow_the_mode() {
    assert_eq!(generate_name(Mode::Sender, 48231), "sender");
    assert_eq!(generate_name(Mode::Receiver, 48231), "receiver-48231");
    assert_eq!(generate_name(Mode::Receiver, 0), "receiver-0");
    assert_eq!(client_identity("receiver-7", Mode::Receiver), "receiver-7:receiver");
    assert_eq!(client_identity("sender", Mode::Sender), "sender:sender");
}

#[test]
fn peers_are_all_but_oneself() {
    let clients = vec![b"sender:sender".to_vec(), b"a:receiver".to_vec(), vec![0xFF, b'x']];
    assert_eq!(peers_of(&clients, "sender:sender"), vec!["a:receiver", "\u{FFFD}x"]);
    assert_eq!(peers_of(&clients, "nobody").len(), 3);
    // the creator waits until enough peers are there
    assert!(discover(&clients, "sender:sender", 3).is_none());
    assert_eq!(discover(&clients, "sender:sender", 2).map(|p| p.len()), Some(2));
    assert_eq!(discover(&Vec::new(), "sender:sender", 0).map(|p| p.len()), Some(0));
}

#[test]
fn audio_packets_are_numbered() {
    let p = audio_packet("Alice", 0xDEADBEEF, 3);
    assert_eq!(p.payload_type, 111);
    assert_eq!(p.sequence_number, 3);
    assert_eq!(p.timestamp, 2880);
    assert_eq!(p.ssrc, 0xDEADBEEF);
    assert_eq!(p.payload, b"Hello from Alice - audio frame 3");
    // the sequence number wraps, the timestamp goes on
    let p = audio_packet("Alice", 1, 65_537);
    assert_eq!(p.sequence_number, 1);
    assert_eq!(p.timestamp, 65_537 * 960);
    assert_eq!(p.payload, b"Hello from Alice - audio frame 65537");
}

#[test]
fn every_sender_has_its_share() {
    assert_eq!(expected_packets(3, 4), 12);
    assert_eq!(expected_packets(5, 0), 0);
    assert_eq!(expected_packets(0, 7), 0);
}

#[test]
fn reception_routes_and_counts() {
    let mut rx = Reception::new(vec![7, 9], 2);
    assert!(rx.wants_more());
    assert_eq!(rx.route(&[0u8; 11]), Route::TooShort);
    assert_eq!(rx.route(&audio_packet("x", 8, 1).to_bytes()), Route::UnknownSsrc(8));
    let packet = audio_packet("x", 9, 1).to_bytes();
    assert_eq!(rx.route(&packet), Route::Decrypt(9));
    // what is no RTP packet is not counted
    assert!(rx.deliver(&[0u8; 5]).is_none());
    assert_eq!(rx.received(), 0);
    let rtp = rx.deliver(&packet).expect("an RTP packet");
    assert_eq!(rtp.payload, b"Hello from x - audio frame 1");
    assert!(rx.wants_more());
    rx.deliver(&packet);
    assert_eq!(rx.received(), 2);
    assert!(!rx.wants_more());
}

/// The creator waits for its peers, fetches and checks their packages, and
/// creates the group.
#[test]
fn creation_goes_step_by_step() {
    let creator = MlsMember::new("sender:sender");
    let peers = [MlsMember::new("a:receiver"), MlsMember::new("b:receiver")];
    let packages: Vec<Vec<u8>> = peers
        .iter()
        .map(|p| p.generate_key_package().key_package().tls_serialize_detached().unwrap())
        .collect();
    let crypto = creator.provider.crypto();

    let mut creation = GroupCreation::new("sender:sender".to_string(), 2);
    assert!(matches!(creation.step(), CreationStep::ListClients));
    let mut clients = vec![b"sender:sender".to_vec(), b"a:receiver".to_vec()];
    assert!(!creation.on_clients(&clients), "one peer is not enough");
    assert!(matches!(creation.step(), CreationStep::ListClients));
    clients.push(b"b:receiver".to_vec());
    assert!(creation.on_clients(&clients));

    assert!(matches!(creation.step(), CreationStep::FetchPackage(p) if p == "a:receiver"));
    assert!(!creation.on_package(None), "no package yet");
    assert!(matches!(creation.step(), CreationStep::FetchPackage(p) if p == "a:receiver"));
    assert!(creation.on_package(Some(packages[0].clone())));
    assert!(matches!(creation.step(), CreationStep::LookUpKey(p) if p == "a:receiver"));
    // with somebody else's key on record the package is not accepted
    assert!(matches!(
        creation.on_key(crypto, &peers[1].signer.to_public_vec()),
        Err(PeerRejected::KeyMismatch)
    ));
    assert!(creation.on_key(crypto, &peers[0].signer.to_public_vec()).is_ok());

    assert!(matches!(creation.step(), CreationStep::FetchPackage(p) if p == "b:receiver"));
    assert!(creation.on_package(Some(packages[1].clone())));
    assert!(creation.on_key(crypto, &peers[1].signer.to_public_vec()).is_ok());
    assert!(matches!(creation.step(), CreationStep::Create));

    let (group, welcome) = creation.create(&creator).expect("failed to create group");
    let members = roster(&group);
    assert_eq!(members.len(), 3);
    let keys = [
        creator.signer.to_public_vec(),
        peers[0].signer.to_public_vec(),
        peers[1].signer.to_public_vec(),
    ];
    assert!(members.iter().all(|m| keys.iter().any(|k| m.has_key(k))));

    // a peer joins and exports the creator's keys
    let joined = join_group(&peers[1], read_welcome(&welcome).unwrap()).expect("welcome failed");
    assert_eq!(
        export_srtp_keys(&group, crypto, 7),
        export_srtp_keys(&joined, peers[1].provider.crypto(), 7)
    );
}

/// Two fresh key packages are registered, each under its own reference.
#[test]
fn registered_packages_carry_their_reference() {
    let member = MlsMember::new("receiver-7:receiver");
    let packages = packages_to_register(&member);
    assert_eq!(packages.len(), 2);
    for (hash, package) in &packages {
        assert_eq!(hash.len(), 32);
        let reference = package.hash_ref(member.provider.crypto()).unwrap();
        assert_eq!(hash.as_slice(), reference.as_slice());
        assert_eq!(
            package.leaf_node().credential().serialized_content(),
            b"receiver-7:receiver".as_slice()
        );
    }
    assert_ne!(packages[0].0, packages[1].0);
}

#[test]
fn numbers_are_spelled_in_decimal() {
    for n in [0u32, 7, 9, 10, 90, 101, 48231, 999_999_999, u32::MAX] {
        assert_eq!(decimal_text(n), n.to_string());
    }
}
