//! What a client asks of the two services, and what their replies mean.

use openmls::prelude::tls_codec::{Serialize, TlsVecU32};
use safecast::directory::{
    first_welcome, AsLookupResponse, CredentialRegistry, DsClient, Registration, Reply,
};
use safecast::keying::group::create_group;
use safecast::keying::mls::MlsMember;

fn client() -> DsClient {
    DsClient::new("http://as:8001", "http://ds:8080")
}

fn reply(status: u16, status_text: &str, body: &[u8]) -> Reply {
    Reply { status, status_text: status_text.to_string(), body: body.to_vec() }
}

#[test]
fn requests_go_to_the_right_place() {
    let mut c = client();
    let (url, body) = c.register_with_as("sender:sender", &[0xFB, 0xEF, 0xFF, 0x00]);
    assert_eq!(url, "http://as:8001/register");
    assert_eq!(body.identity, "sender:sender");
    assert_eq!(body.public_key, "++//AA==");
    assert_eq!(c.lookup_as("sender:sender"), "http://as:8001/lookup/sender:sender");
    assert_eq!(c.register_with_ds(), "http://ds:8080/clients/register");
    assert_eq!(c.list_clients(), "http://ds:8080/clients/list");
    // the path segment is URL-safe base64
    assert_eq!(
        c.consume_key_package(&[0xFB, 0xEF, 0xFF]),
        "http://ds:8080/clients/key_package/--__"
    );
    assert_eq!(c.send_welcome(), "http://ds:8080/send/welcome");
    assert!(c.auth_token().is_none());
    c.registered_with_ds(b"Bob", vec![1, 2, 3]);
    assert_eq!(c.auth_token(), Some(&vec![1, 2, 3]));
    assert_eq!(c.recv_messages(), "http://ds:8080/recv/Qm9i");
}

#[test]
fn success_is_two_hundred_and_up_to_two_hundred_ninety_nine() {
    for status in [200, 201, 204, 299] {
        assert_eq!(reply(status, "", &[]).check("x"), Ok(()));
    }
    for status in [100, 199, 300, 404, 500] {
        assert_eq!(
            reply(status, "no luck", &[]).check("x"),
            Err("x: HTTP no luck".to_string())
        );
    }
}

#[test]
fn failures_name_the_operation() {
    let bad = reply(409, "409 Conflict", &[]);
    let text = |s: &str| Err(format!("{s}: HTTP 409 Conflict"));
    assert_eq!(DsClient::registered_with_as(&bad), text("AS register failed"));
    assert_eq!(DsClient::found_at_as(&bad), text("AS lookup failed"));
    assert_eq!(DsClient::accepted_by_ds(&bad), text("DS register failed"));
    assert_eq!(
        DsClient::listed_clients(&bad).unwrap_err(),
        "DS list clients failed: HTTP 409 Conflict"
    );
    assert_eq!(
        DsClient::consumed_key_package(reply(409, "409 Conflict", &[])).unwrap_err(),
        "DS consume KP failed: HTTP 409 Conflict"
    );
    assert_eq!(DsClient::sent_welcome(&bad), text("DS send welcome failed"));
    assert_eq!(
        DsClient::received_messages(&bad).err().unwrap(),
        "DS recv messages failed: HTTP 409 Conflict"
    );
    let good = reply(200, "200 OK", &[]);
    assert_eq!(DsClient::registered_with_as(&good), Ok(()));
    assert_eq!(DsClient::found_at_as(&good), Ok(()));
    assert_eq!(DsClient::accepted_by_ds(&good), Ok(()));
    assert_eq!(DsClient::sent_welcome(&good), Ok(()));
}

#[test]
fn a_registered_key_is_looked_up_again() {
    let key: Vec<u8> = (0..32).collect();
    let (_, body) = client().register_with_as("a:sender", &key);
    let answer = AsLookupResponse { identity: body.identity, public_key: body.public_key };
    assert_eq!(DsClient::looked_up_key(&answer), Ok(key));
    let broken = AsLookupResponse { identity: String::new(), public_key: "*".to_string() };
    let error = DsClient::looked_up_key(&broken).unwrap_err();
    assert!(error.starts_with("AS lookup base64 decode failed: "));
}

#[test]
fn client_lists_are_parsed() {
    assert_eq!(DsClient::listed_clients(&reply(200, "", &[])), Ok(vec![]));
    let list: TlsVecU32<Vec<u8>> = vec![b"Alice".to_vec(), b"Bob".to_vec()].into();
    let body = list.tls_serialize_detached().unwrap();
    assert_eq!(
        DsClient::listed_clients(&reply(200, "", &body)),
        Ok(vec![b"Alice".to_vec(), b"Bob".to_vec()])
    );
    let error = DsClient::listed_clients(&reply(200, "", &body[1..])).unwrap_err();
    assert!(error.starts_with("DS list clients parse failed: "));
}

#[test]
fn key_packages_may_be_missing() {
    assert_eq!(DsClient::consumed_key_package(reply(204, "", &[])), Ok(None));
    assert_eq!(
        DsClient::consumed_key_package(reply(200, "", &[9, 8])),
        Ok(Some(vec![9, 8]))
    );
}

#[test]
fn the_first_welcome_is_found() {
    let creator = MlsMember::new("a:sender");
    let joiner = MlsMember::new("b:receiver");
    let package = joiner.generate_key_package().key_package().clone();
    let (_, welcome) = create_group(&creator, &vec![package]).expect("failed to create group");
    // a list with a 16-bit length
    let mut body = (welcome.len() as u16).to_be_bytes().to_vec();
    body.extend_from_slice(&welcome);
    let messages = DsClient::received_messages(&reply(200, "", &body)).ok().expect("one message");
    assert_eq!(messages.len(), 1);
    assert!(first_welcome(messages).is_some());

    let none = DsClient::received_messages(&reply(200, "", &[])).ok().expect("no message");
    assert!(none.is_empty());
    assert!(first_welcome(none).is_none());
    let error = DsClient::received_messages(&reply(200, "", &[0, 5, 1])).err().unwrap();
    assert!(error.starts_with("DS recv messages parse failed: "));
}

#[test]
fn an_identity_is_registered_once() {
    let mut registry = CredentialRegistry::new();
    assert_eq!(registry.lookup("a:sender"), None);
    assert_eq!(
        registry.register("a:sender".to_string(), "KEY1".to_string()),
        Registration::Stored
    );
    // no takeover, whatever the key
    assert_eq!(
        registry.register("a:sender".to_string(), "KEY2".to_string()),
        Registration::Conflict
    );
    assert_eq!(
        registry.register("b:sender".to_string(), "KEY2".to_string()),
        Registration::Stored
    );
    assert_eq!(registry.lookup("a:sender"), Some("KEY1".to_string()));
    assert_eq!(registry.lookup("b:sender"), Some("KEY2".to_string()));
}
