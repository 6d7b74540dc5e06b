//! The services that a client talks to, without the talking: which request
//! each operation sends, and what each reply means.
//!
//! The Authentication Service (AS) speaks JSON and keeps public keys by
//! identity. The Delivery Service (DS) speaks TLS-serialized bytes and hands
//! out key packages and messages. Public keys travel in standard base64; the
//! client identity in a DS path travels in URL-safe base64.

use base64::engine::general_purpose::{STANDARD, URL_SAFE};
use base64::Engine;
use openmls::prelude::tls_codec::{Deserialize, TlsVecU32};
use openmls::prelude::{MlsMessageIn, Welcome};
use vstd::hash_map::StringHashMap;
use vstd::prelude::*;

use crate::messaging::{extract_welcome, parse_messages};
use crate::text::joined;

verus! {

/// Bytes in standard base64.
pub uninterp spec fn base64_standard(bytes: Seq<u8>) -> Seq<char>;

/// The bytes that a text in standard base64 stands for, if it is one.
pub uninterp spec fn base64_standard_decoded(text: Seq<char>) -> Option<Seq<u8>>;

/// Bytes in URL-safe base64.
pub uninterp spec fn base64_url(bytes: Seq<u8>) -> Seq<char>;

/// The byte strings in a TLS-serialized list with a 32-bit length, if it is
/// one.
pub uninterp spec fn tls_byte_strings(bytes: Seq<u8>) -> Option<Seq<Seq<u8>>>;

/// `STANDARD.encode` of `base64`. Claimed: the text depends on the bytes
/// alone, and decoding gives them back.
#[verifier::external_body]
fn encode_standard(bytes: &[u8]) -> (r: String)
    requires
        bytes@.len() <= 0x4000_0000,
    ensures
        r@ == base64_standard(bytes@),
        base64_standard_decoded(r@) == Some(bytes@),
{
    STANDARD.encode(bytes)
}

/// `STANDARD.decode` of `base64`. Claimed: the bytes, and whether there are
/// any, depend on the text alone. What the error says is left open.
#[verifier::external_body]
fn decode_standard(text: &str) -> (r: Result<Vec<u8>, String>)
    ensures
        match r {
            Ok(bytes) => base64_standard_decoded(text@) == Some(bytes@),
            Err(_) => base64_standard_decoded(text@) is None,
        },
{
    STANDARD.decode(text).map_err(|e| e.to_string())
}

/// `URL_SAFE.encode` of `base64`. Claimed: the text depends on the bytes
/// alone.
#[verifier::external_body]
fn encode_url(bytes: &[u8]) -> (r: String)
    requires
        bytes@.len() <= 0x4000_0000,
    ensures
        r@ == base64_url(bytes@),
{
    URL_SAFE.encode(bytes)
}

/// What a list of byte strings says.
pub open spec fn byte_strings(list: Seq<Vec<u8>>) -> Seq<Seq<u8>> {
    list.map_values(|v: Vec<u8>| v@)
}

/// `TlsVecU32::tls_deserialize_exact` of `tls_codec` for byte strings.
/// Claimed: the list, and whether there is one, depend on the bytes alone.
/// What the error says is left open. With debug assertions on, `tls_codec`
/// stops on a malformed length instead.
#[verifier::external_body]
fn parse_byte_strings(bytes: &[u8]) -> (r: Result<Vec<Vec<u8>>, String>)
    ensures
        match r {
            Ok(list) => tls_byte_strings(bytes@) == Some(byte_strings(list@)),
            Err(_) => tls_byte_strings(bytes@) is None,
        },
{
    TlsVecU32::<Vec<u8>>::tls_deserialize_exact(bytes).map(|l| l.into()).map_err(|e| e.to_string())
}

/// JSON body of the AS's `POST /register`.
pub struct AsRegisterRequest {
    pub identity: String,
    /// Public signing key in standard base64.
    pub public_key: String,
}

/// JSON reply of the AS's `GET /lookup/{identity}`.
pub struct AsLookupResponse {
    pub identity: String,
    /// Public signing key in standard base64.
    pub public_key: String,
}

/// A service's reply: its status code, the code as text, and its body.
pub struct Reply {
    pub status: u16,
    pub status_text: String,
    pub body: Vec<u8>,
}

impl Reply {
    /// Whether the status is one of success: 200 to 299.
    pub open spec fn succeeded(&self) -> bool {
        200 <= self.status < 300
    }

    /// `Ok` on success; otherwise what failed, with the status.
    pub fn check(&self, failure: &str) -> (r: Result<(), String>)
        ensures
            match r {
                Ok(_) => self.succeeded(),
                Err(e) => !self.succeeded() && e@ == failure@ + ": HTTP "@ + self.status_text@,
            },
            r is Ok <==> 200 <= self.status < 300,
    {
        if 200 <= self.status && self.status < 300 {
            Ok(())
        } else {
            Err(joined(joined(failure, ": HTTP ").as_str(), self.status_text.as_str()))
        }
    }
}

/// What a client knows of the two services.
pub struct DsClient {
    as_url: String,
    ds_url: String,
    /// Token that the DS returned upon registration, as it was serialized.
    auth_token: Option<Vec<u8>>,
    /// Client identity bytes: the MLS credential's content.
    client_id: Option<Vec<u8>>,
}

impl DsClient {
    /// Base URL of the AS.
    pub closed spec fn as_base(&self) -> Seq<char> {
        self.as_url@
    }

    /// Base URL of the DS.
    pub closed spec fn ds_base(&self) -> Seq<char> {
        self.ds_url@
    }

    /// The token of the DS registration, if there was one.
    pub closed spec fn token(&self) -> Option<Seq<u8>> {
        match self.auth_token {
            Some(token) => Some(token@),
            None => None,
        }
    }

    /// The identity that was registered with the DS, if one was.
    pub closed spec fn identity(&self) -> Option<Seq<u8>> {
        match self.client_id {
            Some(id) => Some(id@),
            None => None,
        }
    }

    /// Creates a client for the given base URLs, not registered yet.
    pub fn new(as_url: &str, ds_url: &str) -> (r: Self)
        ensures
            r.as_base() == as_url@,
            r.ds_base() == ds_url@,
            r.token() is None,
            r.identity() is None,
    {
        DsClient {
            as_url: as_url.to_owned(),
            ds_url: ds_url.to_owned(),
            auth_token: None,
            client_id: None,
        }
    }

    /// The client identity in URL-safe base64, as the DS's paths want it.
    fn id_b64(&self) -> (r: String)
        requires
            self.identity() is Some,
            self.identity()->0.len() <= 0x4000_0000,
        ensures
            r@ == base64_url(self.identity()->0),
    {
        match &self.client_id {
            Some(id) => encode_url(id.as_slice()),
            None => String::new(),
        }
    }

    /// The token that the DS returned upon registration, if there is one.
    pub fn auth_token(&self) -> (r: Option<&Vec<u8>>)
        ensures
            match r {
                Some(token) => self.token() == Some(token@),
                None => self.token() is None,
            },
    {
        match &self.auth_token {
            Some(token) => Some(token),
            None => None,
        }
    }

    /// The request that registers an identity and its public signing key with
    /// the AS: the URL to post to, and the body.
    pub fn register_with_as(&self, identity: &str, public_key: &[u8]) -> (r: (
        String,
        AsRegisterRequest,
    ))
        requires
            public_key@.len() <= 0x4000_0000,
        ensures
            r.0@ == self.as_base() + "/register"@,
            r.1.identity@ == identity@,
            r.1.public_key@ == base64_standard(public_key@),
            base64_standard_decoded(r.1.public_key@) == Some(public_key@),
    {
        let body = AsRegisterRequest {
            identity: identity.to_owned(),
            public_key: encode_standard(public_key),
        };
        (joined(self.as_url.as_str(), "/register"), body)
    }

    /// What the AS's reply to a registration means.
    pub fn registered_with_as(reply: &Reply) -> (r: Result<(), String>)
        ensures
            match r {
                Ok(_) => reply.succeeded(),
                Err(e) => !reply.succeeded() && e@ == "AS register failed"@ + ": HTTP "@
                    + reply.status_text@,
            },
    {
        reply.check("AS register failed")
    }

    /// The URL that looks up an identity at the AS.
    pub fn lookup_as(&self, identity: &str) -> (r: String)
        ensures
            r@ == self.as_base() + "/lookup/"@ + identity@,
    {
        joined(joined(self.as_url.as_str(), "/lookup/").as_str(), identity)
    }

    /// Whether the AS's reply to a lookup carries an answer.
    pub fn found_at_as(reply: &Reply) -> (r: Result<(), String>)
        ensures
            match r {
                Ok(_) => reply.succeeded(),
                Err(e) => !reply.succeeded() && e@ == "AS lookup failed"@ + ": HTTP "@
                    + reply.status_text@,
            },
    {
        reply.check("AS lookup failed")
    }

    /// The public signing key in the AS's answer to a lookup.
    pub fn looked_up_key(answer: &AsLookupResponse) -> (r: Result<Vec<u8>, String>)
        ensures
            match r {
                Ok(key) => base64_standard_decoded(answer.public_key@) == Some(key@),
                Err(e) => {
                    &&& base64_standard_decoded(answer.public_key@) is None
                    &&& "AS lookup base64 decode failed: "@.is_prefix_of(e@)
                },
            },
    {
        match decode_standard(answer.public_key.as_str()) {
            Ok(key) => Ok(key),
            Err(e) => {
                let message = joined("AS lookup base64 decode failed: ", e.as_str());
                assert("AS lookup base64 decode failed: "@ =~= message@.subrange(
                    0,
                    "AS lookup base64 decode failed: "@.len() as int,
                ));
                Err(message)
            },
        }
    }

    /// The URL that registers a client with the DS.
    pub fn register_with_ds(&self) -> (r: String)
        ensures
            r@ == self.ds_base() + "/clients/register"@,
    {
        joined(self.ds_url.as_str(), "/clients/register")
    }

    /// Whether the DS's reply to a registration carries a token.
    pub fn accepted_by_ds(reply: &Reply) -> (r: Result<(), String>)
        ensures
            match r {
                Ok(_) => reply.succeeded(),
                Err(e) => !reply.succeeded() && e@ == "DS register failed"@ + ": HTTP "@
                    + reply.status_text@,
            },
    {
        reply.check("DS register failed")
    }

    /// Keeps the token and the identity of a registration, for the requests
    /// that need them.
    pub fn registered_with_ds(&mut self, identity: &[u8], auth_token: Vec<u8>)
        ensures
            final(self).as_base() == old(self).as_base(),
            final(self).ds_base() == old(self).ds_base(),
            final(self).token() == Some(auth_token@),
            final(self).identity() == Some(identity@),
    {
        self.auth_token = Some(auth_token);
        self.client_id = Some(vstd::slice::slice_to_vec(identity));
    }

    /// The URL that lists the clients registered with the DS.
    pub fn list_clients(&self) -> (r: String)
        ensures
            r@ == self.ds_base() + "/clients/list"@,
    {
        joined(self.ds_url.as_str(), "/clients/list")
    }

    /// The client identities in the DS's reply to a listing. An empty body
    /// means that there are none.
    pub fn listed_clients(reply: &Reply) -> (r: Result<Vec<Vec<u8>>, String>)
        ensures
            match r {
                Ok(clients) => {
                    &&& reply.succeeded()
                    &&& reply.body@.len() == 0 ==> clients@.len() == 0
                    &&& reply.body@.len() > 0 ==> tls_byte_strings(reply.body@) == Some(
                        byte_strings(clients@),
                    )
                },
                Err(e) => if reply.succeeded() {
                    &&& reply.body@.len() > 0
                    &&& tls_byte_strings(reply.body@) is None
                    &&& "DS list clients parse failed: "@.is_prefix_of(e@)
                } else {
                    e@ == "DS list clients failed"@ + ": HTTP "@ + reply.status_text@
                },
            },
    {
        match reply.check("DS list clients failed") {
            Err(e) => {
                return Err(e);
            },
            Ok(_) => {},
        }
        if reply.body.len() == 0 {
            return Ok(Vec::new());
        }
        match parse_byte_strings(reply.body.as_slice()) {
            Ok(clients) => Ok(clients),
            Err(e) => {
                let message = joined("DS list clients parse failed: ", e.as_str());
                assert("DS list clients parse failed: "@ =~= message@.subrange(
                    0,
                    "DS list clients parse failed: "@.len() as int,
                ));
                Err(message)
            },
        }
    }

    /// The URL that takes one key package of a client off the DS.
    pub fn consume_key_package(&self, client_identity: &[u8]) -> (r: String)
        requires
            client_identity@.len() <= 0x4000_0000,
        ensures
            r@ == self.ds_base() + "/clients/key_package/"@ + base64_url(client_identity@),
    {
        let base = joined(self.ds_url.as_str(), "/clients/key_package/");
        joined(base.as_str(), encode_url(client_identity).as_str())
    }

    /// The key package in the DS's reply. Status 204 means that there is none
    /// yet.
    pub fn consumed_key_package(reply: Reply) -> (r: Result<Option<Vec<u8>>, String>)
        ensures
            match r {
                Ok(None) => reply.status == 204,
                Ok(Some(bytes)) => {
                    &&& reply.succeeded()
                    &&& reply.status != 204
                    &&& bytes@ == reply.body@
                },
                Err(e) => !reply.succeeded() && e@ == "DS consume KP failed"@ + ": HTTP "@
                    + reply.status_text@,
            },
    {
        if reply.status == 204 {
            return Ok(None);
        }
        match reply.check("DS consume KP failed") {
            Err(e) => Err(e),
            Ok(_) => Ok(Some(reply.body)),
        }
    }

    /// The URL that sends a Welcome through the DS.
    pub fn send_welcome(&self) -> (r: String)
        ensures
            r@ == self.ds_base() + "/send/welcome"@,
    {
        joined(self.ds_url.as_str(), "/send/welcome")
    }

    /// What the DS's reply to a Welcome means.
    pub fn sent_welcome(reply: &Reply) -> (r: Result<(), String>)
        ensures
            match r {
                Ok(_) => reply.succeeded(),
                Err(e) => !reply.succeeded() && e@ == "DS send welcome failed"@ + ": HTTP "@
                    + reply.status_text@,
            },
    {
        reply.check("DS send welcome failed")
    }

    /// The URL that fetches this client's queued messages from the DS.
    pub fn recv_messages(&self) -> (r: String)
        requires
            self.identity() is Some,
            self.identity()->0.len() <= 0x4000_0000,
        ensures
            r@ == self.ds_base() + "/recv/"@ + base64_url(self.identity()->0),
    {
        let base = joined(self.ds_url.as_str(), "/recv/");
        joined(base.as_str(), self.id_b64().as_str())
    }

    /// The messages in the DS's reply. An empty body means that none is
    /// queued.
    pub fn received_messages(reply: &Reply) -> (r: Result<Vec<MlsMessageIn>, String>)
        ensures
            match r {
                Ok(messages) => {
                    &&& reply.succeeded()
                    &&& reply.body@.len() == 0 ==> messages@.len() == 0
                    &&& reply.body@.len() > 0 ==> crate::messaging::tls_messages(reply.body@) == Some(messages@)
                },
                Err(e) => if reply.succeeded() {
                    &&& reply.body@.len() > 0
                    &&& crate::messaging::tls_messages(reply.body@) is None
                    &&& "DS recv messages parse failed: "@.is_prefix_of(e@)
                } else {
                    e@ == "DS recv messages failed"@ + ": HTTP "@ + reply.status_text@
                },
            },
    {
        match reply.check("DS recv messages failed") {
            Err(e) => {
                return Err(e);
            },
            Ok(_) => {},
        }
        if reply.body.len() == 0 {
            return Ok(Vec::new());
        }
        match parse_messages(reply.body.as_slice()) {
            Ok(messages) => Ok(messages),
            Err(e) => {
                let message = joined("DS recv messages parse failed: ", e.as_str());
                assert("DS recv messages parse failed: "@ =~= message@.subrange(
                    0,
                    "DS recv messages parse failed: "@.len() as int,
                ));
                Err(message)
            },
        }
    }
}

/// The first Welcome among messages, if there is one.
pub fn first_welcome(messages: Vec<MlsMessageIn>) -> (r: Option<Welcome>)
    ensures
        match r {
            Some(welcome) => exists|i: int|
                {
                    &&& 0 <= i < messages@.len()
                    &&& #[trigger] crate::messaging::message_welcome(messages@[i]) == Some(welcome)
                    &&& forall|j: int| 0 <= j < i ==> crate::messaging::message_welcome(messages@[j]) is None
                },
            None => forall|i: int|
                0 <= i < messages@.len() ==> #[trigger] crate::messaging::message_welcome(messages@[i]) is None,
        },
{
    let ghost all = messages@;
    for message in iter: messages
        invariant
            iter.seq() == all,
            forall|j: int| 0 <= j < iter.index() ==> #[trigger] crate::messaging::message_welcome(all[j]) is None,
    {
        assert(message == all[iter.index()]);
        match extract_welcome(message) {
            Some(welcome) => {
                return Some(welcome);
            },
            None => {},
        }
    }
    None
}

/// What became of a registration.
#[derive(Debug, Clone, Copy, PartialEq, Eq, Structural)]
pub enum Registration {
    /// The identity and its key are stored.
    Stored,
    /// The identity was registered before; its key stays as it was.
    Conflict,
}

/// The Authentication Service's credential registry: public keys in base64, by
/// identity. An identity is registered once and never taken over.
pub struct CredentialRegistry {
    credentials: StringHashMap<String>,
}

impl View for CredentialRegistry {
    type V = Map<Seq<char>, Seq<char>>;

    closed spec fn view(&self) -> Map<Seq<char>, Seq<char>> {
        self.credentials@.map_values(|v: String| v@)
    }
}

impl CredentialRegistry {
    /// An empty registry.
    pub fn new() -> (r: Self)
        ensures
            r@ == Map::<Seq<char>, Seq<char>>::empty(),
    {
        let r = CredentialRegistry { credentials: StringHashMap::new() };
        assert(r@ =~= Map::<Seq<char>, Seq<char>>::empty());
        r
    }

    /// Stores a client's identity and public key, unless the identity is
    /// already registered.
    pub fn register(&mut self, identity: String, public_key: String) -> (r: Registration)
        ensures
            r == if old(self)@.contains_key(identity@) {
                Registration::Conflict
            } else {
                Registration::Stored
            },
            final(self)@ == after_register(old(self)@, identity@, public_key@),
            r is Conflict ==> final(self)@ == old(self)@,
            r is Stored ==> final(self)@ == old(self)@.insert(identity@, public_key@),
    {
        if self.credentials.contains_key(identity.as_str()) {
            return Registration::Conflict;
        }
        let ghost before = self@;
        let ghost name = identity@;
        let ghost key = public_key@;
        self.credentials.insert(identity, public_key);
        assert(self@ =~= before.insert(name, key));
        Registration::Stored
    }

    /// The public key of an identity, if it is registered.
    pub fn lookup(&self, identity: &str) -> (r: Option<String>)
        ensures
            match r {
                Some(key) => self@.contains_key(identity@) && key@ == self@[identity@],
                None => !self@.contains_key(identity@),
            },
    {
        match self.credentials.get(identity) {
            Some(key) => Some(key.clone()),
            None => None,
        }
    }
}

/// What a registry holds after a registration.
pub open spec fn after_register(
    held: Map<Seq<char>, Seq<char>>,
    identity: Seq<char>,
    public_key: Seq<char>,
) -> Map<Seq<char>, Seq<char>> {
    if held.contains_key(identity) {
        held
    } else {
        held.insert(identity, public_key)
    }
}

/// Law: no identity is taken over. Whatever is registered afterwards, a
/// registered identity keeps its key.
pub proof fn law_registered_key_stays(
    held: Map<Seq<char>, Seq<char>>,
    identity: Seq<char>,
    other: Seq<char>,
    public_key: Seq<char>,
)
    requires
        held.contains_key(identity),
    ensures
        after_register(held, other, public_key).contains_key(identity),
        after_register(held, other, public_key)[identity] == held[identity],
{
}

/// Law: success is any status from 200 to 299 and no other.
pub proof fn law_success_is_two_hundred(reply: Reply)
    ensures
        reply.succeeded() <==> reply.status / 100 == 2,
{
}

/// Law: a new identity is stored with its key, and with it nothing else changes.
pub proof fn law_registration_stores_the_key(
    held: Map<Seq<char>, Seq<char>>,
    identity: Seq<char>,
    public_key: Seq<char>,
    other: Seq<char>,
)
    requires
        !held.contains_key(identity),
    ensures
        ({
            let after = after_register(held, identity, public_key);
            &&& after.contains_key(identity)
            &&& after[identity] == public_key
            &&& other != identity ==> (after.contains_key(other) <==> held.contains_key(other))
            &&& other != identity && held.contains_key(other) ==> after[other] == held[other]
        }),
{
}

} // verus!
