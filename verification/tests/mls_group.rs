//! MLS groups: creation, joining through a Welcome, key export and rekeying,
//! with messages passed directly between the members.

use std::collections::hash_map::DefaultHasher;
use std::hash::{Hash, Hasher};

use openmls::prelude::tls_codec::{Deserialize, Serialize};
use openmls::prelude::{
    KeyPackage, LeafNodeParameters, MlsGroup, MlsMessageIn, ProcessedMessageContent,
};
use openmls_traits::OpenMlsProvider;
use openssl::symm::{decrypt_aead, encrypt_aead, Cipher};
use safecast::client::{member_named, members_to_verify, roster, senders_among};
use safecast::keying::group::{
    accept_peer, can_commit, check_registered_key, create_group, create_rekey_commit, current_epoch,
    enroll, follow_commit, join_group, process_commit, read_welcome, setup_group as setup_measured_group,
    GroupError, PeerRejected,
};
use safecast::keying::mls::{
    build_exporter_context, can_export, export_srtp_keys, parse_credential_identity,
    ssrc_from_identity, MlsMember, CIPHERSUITE, SRTP_KEY_MATERIAL_LEN,
};
use safecast::keying::ratchet::StreamRatchet;
use safecast::transport::rtp::{RtpPacket, RTP_HEADER_LEN};

/// A group with the given member identities. The first one creates it; the
/// rest join via Welcome.
fn setup_group(identities: &[&str]) -> Vec<(MlsGroup, MlsMember)> {
    assert!(identities.len() >= 2);

    // each member gets its own crypto provider, signing key and credential
    let members: Vec<MlsMember> = identities.iter().map(|id| MlsMember::new(id)).collect();

    // a key package for each joiner
    let joiner_kps: Vec<KeyPackage> = members[1..]
        .iter()
        .map(|m| m.generate_key_package().key_package().clone())
        .collect();

    // the first member creates the group and adds all joiners in one commit
    let (creator_group, welcome) =
        create_group(&members[0], &joiner_kps).expect("failed to create group");

    // each joiner processes the Welcome
    let joiner_groups: Vec<MlsGroup> = members[1..]
        .iter()
        .map(|m| {
            let welcome = read_welcome(&welcome).expect("expected Welcome");
            join_group(m, welcome).expect("welcome failed")
        })
        .collect();

    let mut result = Vec::with_capacity(identities.len());
    let mut members = members.into_iter();
    result.push((creator_group, members.next().unwrap()));
    for group in joiner_groups {
        result.push((group, members.next().unwrap()));
    }
    result
}

/// After group creation via Welcome, all members share the same epoch, group
/// ID, and member count.
#[test]
fn group_creation_all_members_see_same_group() {
    let ids = ["creator-0:creator", "sender-1:sender", "receiver-2:receiver"];
    let group = setup_group(&ids);

    // all members are at the same MLS epoch
    let epoch = group[0].0.epoch();
    for (i, (g, _)) in group.iter().enumerate() {
        assert_eq!(g.epoch(), epoch, "member {i} at wrong epoch");
    }

    // all members see the same group ID
    let group_id = group[0].0.group_id().clone();
    for (i, (g, _)) in group.iter().enumerate() {
        assert_eq!(g.group_id(), &group_id, "member {i} has wrong group ID");
    }

    // all members see 3 members
    for (i, (g, _)) in group.iter().enumerate() {
        assert_eq!(g.members().count(), 3, "member {i} sees wrong member count");
    }

    println!("group ID:    {}", hex::encode(group_id.as_slice()));
    println!("epoch:       {}", epoch.as_u64());
    println!("member count: 3");
}

/// The group tree contains the correct number of senders and receivers.
#[test]
fn group_members_have_correct_roles() {
    let ids = [
        "creator-0:creator",
        "sender-1:sender",
        "sender-2:sender",
        "receiver-3:receiver",
        "receiver-4:receiver",
        "receiver-5:receiver",
    ];
    let group = setup_group(&ids);

    // identities in the group tree, with their roles
    let tree_members: Vec<(String, String)> = group[0]
        .0
        .members()
        .map(|m| {
            let id = String::from_utf8_lossy(m.credential.serialized_content()).to_string();
            let role = parse_credential_identity(&id).1.to_string();
            (id, role)
        })
        .collect();

    let senders: Vec<_> = tree_members
        .iter()
        .filter(|(_, r)| r == "sender")
        .collect();
    let receivers: Vec<_> = tree_members
        .iter()
        .filter(|(_, r)| r == "receiver")
        .collect();

    assert_eq!(senders.len(), 2, "expected 2 senders");
    assert_eq!(receivers.len(), 3, "expected 3 receivers");

    println!("senders:   {:?}", senders.iter().map(|(id, _)| id).collect::<Vec<_>>());
    println!("receivers: {:?}", receivers.iter().map(|(id, _)| id).collect::<Vec<_>>());
}

/// Sender and receiver derive identical SRTP key material for the same SSRC at
/// the same epoch.
#[test]
fn key_export_sender_receiver_agreement() {
    let ids = ["sender-0:sender", "receiver-1:receiver"];
    let group = setup_group(&ids);
    let ssrc = ssrc_from_identity("sender-0:sender");

    let (km_sender, key_sender, salt_sender) =
        export_srtp_keys(&group[0].0, group[0].1.provider.crypto(), ssrc);
    let (km_receiver, key_receiver, salt_receiver) =
        export_srtp_keys(&group[1].0, group[1].1.provider.crypto(), ssrc);

    assert_eq!(km_sender, km_receiver, "key material mismatch");
    assert_eq!(key_sender, key_receiver, "master key mismatch");
    assert_eq!(salt_sender, salt_receiver, "master salt mismatch");

    // 16 bytes master key + 12 bytes master salt
    assert_eq!(km_sender.len(), SRTP_KEY_MATERIAL_LEN);

    println!("SSRC:        0x{ssrc:08X}");
    println!("master key:  {}", hex::encode(&key_sender));
    println!("master salt: {}", hex::encode(&salt_sender));
    println!("sender and receiver derive identical keys");
}

/// Two senders with different SSRCs get different SRTP key material.
#[test]
fn key_export_different_senders_get_different_keys() {
    let ids = ["sender-0:sender", "sender-1:sender", "receiver-2:receiver"];
    let group = setup_group(&ids);

    let ssrc0 = ssrc_from_identity("sender-0:sender");
    let ssrc1 = ssrc_from_identity("sender-1:sender");

    // exporting from the receiver's perspective for two different senders
    let (km0, _, _) = export_srtp_keys(&group[2].0, group[2].1.provider.crypto(), ssrc0);
    let (km1, _, _) = export_srtp_keys(&group[2].0, group[2].1.provider.crypto(), ssrc1);

    assert_ne!(km0, km1, "different senders should have different keys");

    println!("sender-0 SSRC=0x{ssrc0:08X}: {}", hex::encode(&km0));
    println!("sender-1 SSRC=0x{ssrc1:08X}: {}", hex::encode(&km1));
}

/// Same identity, same SSRC; different identities, different SSRCs.
#[test]
fn ssrc_derived_from_identity_is_deterministic() {
    let ssrc1 = ssrc_from_identity("sender-0:sender");
    let ssrc2 = ssrc_from_identity("sender-0:sender");
    let ssrc3 = ssrc_from_identity("receiver-1:receiver");

    assert_eq!(ssrc1, ssrc2, "same identity should produce same SSRC");
    assert_ne!(ssrc1, ssrc3, "different identities should produce different SSRCs");

    println!("sender-0:sender   -> 0x{ssrc1:08X}");
    println!("receiver-1:receiver -> 0x{ssrc3:08X}");
}

/// `label:role` strings split into label and role.
#[test]
fn credential_identity_parsing() {
    let (label, role) = parse_credential_identity("sender-48231:sender");
    assert_eq!(label, "sender-48231");
    assert_eq!(role, "sender");

    let (label, role) = parse_credential_identity("receiver-12045:receiver");
    assert_eq!(label, "receiver-12045");
    assert_eq!(role, "receiver");

    let (label, role) = parse_credential_identity("creator-1:creator");
    assert_eq!(label, "creator-1");
    assert_eq!(role, "creator");
}

/// The role follows the last colon; label and role may be empty.
#[test]
fn credential_identity_splits_at_the_last_colon() {
    assert_eq!(parse_credential_identity("a:b:c"), ("a:b", "c"));
    assert_eq!(parse_credential_identity(":"), ("", ""));
    assert_eq!(parse_credential_identity("caf\u{e9}:r\u{f4}le"), ("caf\u{e9}", "r\u{f4}le"));
}

/// The SSRC is the low half of the standard hash.
#[test]
fn ssrc_is_the_low_half_of_the_hash() {
    let mut hasher = DefaultHasher::new();
    "camera-1:sender".hash(&mut hasher);
    assert_eq!(ssrc_from_identity("camera-1:sender"), hasher.finish() as u32);
}

/// Three members: a sender and two receivers.
fn rekey_group() -> Vec<(MlsGroup, MlsMember)> {
    setup_group(&["sender-0:sender", "receiver-1:receiver", "receiver-2:receiver"])
}

/// A self-update commit makes all members derive the same fresh keys.
#[test]
fn rekey_rotates_srtp_keys() {
    let mut group = rekey_group();
    let sender_ssrc = ssrc_from_identity("sender-0:sender");

    // all members export at the current epoch
    let initial_keys: Vec<(Vec<u8>, Vec<u8>, Vec<u8>)> = group
        .iter()
        .map(|(g, m)| export_srtp_keys(g, m.provider.crypto(), sender_ssrc))
        .collect();

    let (ref init_km, ref init_key, ref init_salt) = initial_keys[0];
    println!("=== Epoch {} (initial) ===", group[0].0.epoch().as_u64());
    println!("  master key:  {}", hex::encode(init_key));
    println!("  master salt: {}", hex::encode(init_salt));

    for (i, (km, _, _)) in initial_keys.iter().enumerate() {
        assert_eq!(km, init_km, "member {i} has different initial key material");
    }
    println!("  all 3 members agree on key material");

    // the sender performs a self-update and enters the new epoch
    let commit = {
        let (ref mut sender_group, ref sender_member) = group[0];
        create_rekey_commit(sender_group, &sender_member.provider, &sender_member.signer)
            .expect("rekey failed")
    };

    println!("\n--- sender created rekey commit ---\n");

    // each receiver follows the commit
    for i in 1..group.len() {
        let (ref mut recv_group, ref recv_member) = group[i];
        process_commit(recv_group, &recv_member.provider, &commit).expect("commit refused");
    }

    // all members export at the new epoch
    let new_keys: Vec<(Vec<u8>, Vec<u8>, Vec<u8>)> = group
        .iter()
        .map(|(g, m)| export_srtp_keys(g, m.provider.crypto(), sender_ssrc))
        .collect();

    let (ref new_km, ref new_key, ref new_salt) = new_keys[0];
    println!("=== Epoch {} (after rekey) ===", group[0].0.epoch().as_u64());
    println!("  master key:  {}", hex::encode(new_key));
    println!("  master salt: {}", hex::encode(new_salt));

    for (i, (km, _, _)) in new_keys.iter().enumerate() {
        assert_eq!(km, new_km, "member {i} has different new key material");
    }
    println!("  all 3 members agree on key material");

    // the rekey commit rotated the group secrets
    assert_ne!(init_km, new_km, "keys did not change after rekey");
    println!("\n  keys differ from previous epoch");
}

/// After a rekey, the fresh keys encrypt and decrypt.
#[test]
fn rekey_produces_working_srtp_sessions() {
    let mut group = rekey_group();
    let sender_ssrc = ssrc_from_identity("sender-0:sender");

    let commit = {
        let (ref mut g, ref m) = group[0];
        create_rekey_commit(g, &m.provider, &m.signer).expect("rekey failed")
    };
    for i in 1..group.len() {
        let (ref mut g, ref m) = group[i];
        process_commit(g, &m.provider, &commit).expect("commit refused");
    }

    // both sides export for the sender's SSRC at the new epoch
    let (sender_km, sender_key, sender_salt) =
        export_srtp_keys(&group[0].0, group[0].1.provider.crypto(), sender_ssrc);
    let (recv_km, recv_key, recv_salt) =
        export_srtp_keys(&group[1].0, group[1].1.provider.crypto(), sender_ssrc);
    assert_eq!(sender_km, recv_km);

    let original_payload = b"hello after rekey";
    let pkt = RtpPacket {
        payload_type: 111,
        sequence_number: 1,
        timestamp: 960,
        ssrc: sender_ssrc,
        payload: original_payload.to_vec(),
    };

    // encrypting with the sender's key: the payload grows by the tag
    let mut buf = pkt.to_bytes();
    let plaintext_len = buf.len();
    let mut tag = [0u8; 16];
    let sealed = encrypt_aead(
        Cipher::aes_128_gcm(),
        &sender_key,
        Some(&sender_salt),
        &buf[..RTP_HEADER_LEN],
        &buf[RTP_HEADER_LEN..],
        &mut tag,
    )
    .expect("protect failed");
    buf.truncate(RTP_HEADER_LEN);
    buf.extend_from_slice(&sealed);
    buf.extend_from_slice(&tag);
    assert_ne!(&buf[12..], original_payload, "payload should be encrypted");
    println!("encrypted: {} bytes -> {} bytes", plaintext_len, buf.len());

    // decrypting with the receiver's key
    let body = buf.len() - 16;
    let opened = decrypt_aead(
        Cipher::aes_128_gcm(),
        &recv_key,
        Some(&recv_salt),
        &buf[..RTP_HEADER_LEN],
        &buf[RTP_HEADER_LEN..body],
        &buf[body..],
    )
    .expect("unprotect failed");
    buf.truncate(RTP_HEADER_LEN);
    buf.extend_from_slice(&opened);
    let decrypted = RtpPacket::from_bytes(&buf).expect("RTP parse failed");

    assert_eq!(&decrypted.payload, original_payload);
    println!("decrypted payload matches original");
}

/// Key and salt are exported under their own labels, with the SSRC as context.
#[test]
fn export_uses_labels_and_context() {
    let group = setup_group(&["sender-0:sender", "receiver-1:receiver"]);
    let (g, m) = &group[0];
    assert!(can_export(g));
    assert_eq!(build_exporter_context(0x01020304), vec![1, 2, 3, 4]);
    let (material, key, salt) = export_srtp_keys(g, m.provider.crypto(), 0x01020304);
    let context = [1u8, 2, 3, 4];
    assert_eq!(
        key,
        g.export_secret(m.provider.crypto(), "SRTP master key", &context, 16).unwrap()
    );
    assert_eq!(
        salt,
        g.export_secret(m.provider.crypto(), "SRTP master salt", &context, 12).unwrap()
    );
    assert_eq!(material, [key, salt].concat());
}

/// Both sides seed the same ratchet, and another one for another stream.
#[test]
fn members_seed_the_same_ratchet() {
    let group = setup_group(&["sender-0:sender", "receiver-1:receiver"]);
    let key = |(g, m): &(MlsGroup, MlsMember), ssrc: u32| {
        let mut r = StreamRatchet::seed_from_exporter(g, m.provider.crypto(), ssrc);
        r.advance(m.provider.crypto());
        r.derive_key_salt(m.provider.crypto())
    };
    assert_eq!(key(&group[0], 5), key(&group[1], 5));
    assert_ne!(key(&group[0], 5), key(&group[0], 6));
}

/// A peer's key package is accepted if it is whole, valid and of the
/// registered key.
#[test]
fn peers_are_checked_against_their_registered_key() {
    let me = MlsMember::new("sender:sender");
    let peer = MlsMember::new("receiver-1:receiver");
    let package = peer.generate_key_package().key_package().clone();
    let bytes = package.tls_serialize_detached().expect("serialization failed");
    let registered = peer.signer.to_public_vec();
    let crypto = me.provider.crypto();

    let accepted = accept_peer(crypto, &bytes, &registered).ok().expect("must be accepted");
    assert_eq!(accepted.leaf_node().signature_key().as_slice(), &registered[..]);

    assert!(matches!(
        accept_peer(crypto, &bytes, &me.signer.to_public_vec()),
        Err(PeerRejected::KeyMismatch)
    ));
    assert!(matches!(
        accept_peer(crypto, &bytes[..20], &registered),
        Err(PeerRejected::Malformed(_))
    ));
    // the last byte belongs to the signature
    let mut broken = bytes.clone();
    *broken.last_mut().unwrap() ^= 1;
    assert!(matches!(
        accept_peer(crypto, &broken, &registered),
        Err(PeerRejected::Invalid(_))
    ));
    assert!(check_registered_key(package, &registered).is_ok());
}

/// Only a Welcome for a held key package lets a member in, and only commits
/// move a group on.
#[test]
fn refused_messages_are_told_apart() {
    let mut group = rekey_group();
    assert!(matches!(read_welcome(&[1, 2, 3]), Err(GroupError::Decode(_))));
    let commit = {
        let (ref mut g, ref m) = group[0];
        create_rekey_commit(g, &m.provider, &m.signer).expect("rekey failed")
    };
    assert!(matches!(read_welcome(&commit), Err(GroupError::NotWelcome)));

    // a stranger cannot join through somebody else's Welcome
    let creator = MlsMember::new("a:sender");
    let invited = MlsMember::new("b:receiver");
    let package = invited.generate_key_package().key_package().clone();
    let (_, welcome) = create_group(&creator, &vec![package]).expect("failed to create group");
    let stranger = MlsMember::new("c:receiver");
    assert!(matches!(
        join_group(&stranger, read_welcome(&welcome).unwrap()),
        Err(GroupError::Join(_))
    ));

    // a group without peers has nobody to welcome
    assert!(matches!(create_group(&creator, &Vec::new()), Err(GroupError::Add(_))));

    let (ref mut g, ref m) = group[1];
    assert!(matches!(
        process_commit(g, &m.provider, &[0xFF]),
        Err(GroupError::Decode(_))
    ));
    process_commit(g, &m.provider, &commit).expect("commit refused");
    // the same commit again belongs to a past epoch
    assert!(matches!(
        process_commit(g, &m.provider, &commit),
        Err(GroupError::Process(_))
    ));
}

/// The roster of a group, whom a member checks, and who sends.
#[test]
fn roster_tells_members_apart() {
    let group = setup_group(&[
        "sender:sender",
        "receiver-1:receiver",
        "studio:cam:sender",
        "resender:repeater",
    ]);
    let members = roster(&group[1].0);
    assert_eq!(members.len(), 4);
    for (m, (_, member)) in members.iter().zip(&group) {
        assert!(m.has_key(&member.signer.to_public_vec()));
        assert!(!m.has_key(&[0u8; 32]));
    }
    assert!(member_named(&members, "studio:cam:sender")
        .is_some_and(|m| m.has_key(&group[2].1.signer.to_public_vec())));
    assert!(member_named(&members, "studio").is_none());
    let others: Vec<&str> = members_to_verify(&members, "receiver-1:receiver")
        .iter()
        .map(|m| m.identity.as_str())
        .collect();
    assert_eq!(others, vec!["sender:sender", "studio:cam:sender", "resender:repeater"]);
    let senders: Vec<&str> = senders_among(&members).iter().map(|s| s.as_str()).collect();
    assert_eq!(senders, vec!["sender:sender", "studio:cam:sender"]);
}

/// A measured group holds all its members, and both kept seats agree.
#[test]
fn measured_group_grows_to_its_size() {
    let (creator, joiner) = setup_measured_group(4).expect("setup failed");
    let names: Vec<String> = roster(&creator.group).into_iter().map(|m| m.identity).collect();
    let mut sorted = names.clone();
    sorted.sort();
    assert_eq!(
        sorted,
        vec!["member-0:member", "member-1:member", "member-2:member", "member-3:member"]
    );
    assert_eq!(creator.group.epoch(), joiner.group.epoch());
    // two epochs began for each of the three joiners
    assert_eq!(current_epoch(&creator.group), 6);
    assert_eq!(creator.group.epoch().as_u64(), 6);
    assert_eq!(u16::from(creator.group.ciphersuite()), CIPHERSUITE);
    assert_eq!(
        export_srtp_keys(&creator.group, creator.member.provider.crypto(), 9),
        export_srtp_keys(&joiner.group, joiner.member.provider.crypto(), 9)
    );
}

/// A message that holds no commit is told apart from a refused one, and leaves
/// the group where it was.
#[test]
fn message_without_commit_moves_nothing() {
    let mut group = rekey_group();
    let message = {
        let (ref mut g, ref m) = group[0];
        g.create_message(&m.provider, &m.signer, b"hello")
            .expect("message failed")
            .tls_serialize_detached()
            .expect("serialization failed")
    };
    let (ref mut g, ref m) = group[1];
    let epoch = g.epoch();
    let keys = export_srtp_keys(g, m.provider.crypto(), 7);
    assert!(matches!(process_commit(g, &m.provider, &message), Err(GroupError::NotCommit)));
    // the message's key is used up, so it is refused the second time
    assert!(matches!(process_commit(g, &m.provider, &message), Err(GroupError::Process(_))));
    assert_eq!(g.epoch(), epoch);
    assert_eq!(export_srtp_keys(g, m.provider.crypto(), 7), keys);
}

/// An enrolment brings the newcomer in and leaves both in one epoch. One that
/// cannot add the newcomer leaves the group where it was.
#[test]
fn enrolment_takes_in_or_leaves_alone() {
    let mut group = setup_group(&["sender-0:sender", "receiver-1:receiver"]);
    let (ref mut g, ref m) = group[0];
    assert_eq!(current_epoch(g), 1);
    assert_eq!(u16::from(g.ciphersuite()), CIPHERSUITE);
    let (seat, added, updated) = enroll(g, m, "receiver-2:receiver").expect("enrolment failed");
    assert_eq!(seat.group.epoch(), g.epoch());
    assert_eq!(current_epoch(g), 3);
    assert_eq!(roster(g).len(), 3);
    let keys = export_srtp_keys(g, m.provider.crypto(), 7);
    assert_eq!(export_srtp_keys(&seat.group, seat.member.provider.crypto(), 7), keys);

    // whoever else is in the group follows the two commits, in this order
    let (ref mut other, ref o) = group[1];
    assert!(matches!(
        process_commit(other, &o.provider, &updated),
        Err(GroupError::Process(_))
    ));
    process_commit(other, &o.provider, &added).expect("commit refused");
    process_commit(other, &o.provider, &updated).expect("commit refused");
    assert_eq!(export_srtp_keys(other, o.provider.crypto(), 7), keys);

    // with a commit of its own pending, the creator can add nobody
    let (ref mut g, ref m) = group[0];
    g.self_update(&m.provider, &m.signer, LeafNodeParameters::default())
        .expect("update failed");
    let epoch = g.epoch();
    assert!(matches!(enroll(g, m, "receiver-3:receiver"), Err(GroupError::Add(_))));
    assert_eq!(g.epoch(), epoch);
    assert_eq!(roster(g).len(), 3);
    assert_eq!(export_srtp_keys(g, m.provider.crypto(), 7), keys);
}

/// Proposals that wait keep a member from committing, and a refresh that fails
/// leaves the group where it was.
#[test]
fn waiting_proposals_and_failed_refreshes_are_noticed() {
    let mut group = setup_group(&["sender-0:sender", "receiver-1:receiver"]);
    let (ref mut g, ref m) = group[1];
    assert!(can_commit(g));
    let _ = g
        .propose_self_update(&m.provider, &m.signer, LeafNodeParameters::default())
        .expect("proposal failed");
    assert!(!can_commit(g));

    let (ref mut g, ref m) = group[0];
    assert!(can_commit(g));
    g.self_update(&m.provider, &m.signer, LeafNodeParameters::default())
        .expect("update failed");
    let epoch = g.epoch();
    let keys = export_srtp_keys(g, m.provider.crypto(), 7);
    assert!(matches!(
        create_rekey_commit(g, &m.provider, &m.signer),
        Err(GroupError::Update(_))
    ));
    assert_eq!(g.epoch(), epoch);
    assert_eq!(export_srtp_keys(g, m.provider.crypto(), 7), keys);
}

/// What became of a message decides: a refused one and one without a commit are
/// told apart, and a checked commit is merged.
#[test]
fn checked_commits_are_followed() {
    let mut group = rekey_group();
    let commit = {
        let (ref mut g, ref m) = group[0];
        create_rekey_commit(g, &m.provider, &m.signer).expect("rekey failed")
    };
    let keys = {
        let (ref g, ref m) = group[0];
        export_srtp_keys(g, m.provider.crypto(), 7)
    };
    let (ref mut g, ref m) = group[1];
    let epoch = current_epoch(g);
    assert!(matches!(
        follow_commit(g, &m.provider, Err("refused".to_string())),
        Err(GroupError::Process(e)) if e == "refused"
    ));
    assert!(matches!(follow_commit(g, &m.provider, Ok(None)), Err(GroupError::NotCommit)));
    assert_eq!(current_epoch(g), epoch);

    let message = MlsMessageIn::tls_deserialize_exact(&commit)
        .unwrap()
        .try_into_protocol_message()
        .unwrap();
    let staged = match g.process_message(&m.provider, message).unwrap().into_content() {
        ProcessedMessageContent::StagedCommitMessage(staged) => staged,
        _ => panic!("not a commit"),
    };
    assert_eq!(current_epoch(g), epoch);
    follow_commit(g, &m.provider, Ok(Some(staged))).expect("merge failed");
    assert_eq!(current_epoch(g), epoch + 1);
    assert_eq!(export_srtp_keys(g, m.provider.crypto(), 7), keys);
}
