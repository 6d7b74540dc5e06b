//! The signed commitment that bootstraps a TESLA stream. It carries the
//! chain's starting point `K_0` and the schedule, signed with the sender's MLS
//! leaf key.
//!
//! Every TESLA check traces back to `K_0` and the schedule, so those two
//! cannot be authenticated by TESLA itself. The MLS leaf key is the identity
//! key that the group already trusts, so it can vouch for them. The commitment
//! also binds its context: which sender, which stream, which group and epoch,
//! and which MAC algorithm.

use openmls_basic_credential::SignatureKeyPair;
use openmls_rust_crypto::RustCrypto;
use vstd::prelude::*;

use crate::bytes::{push_be32, push_be64, push_slice};
use crate::crypto::{sign, verify_signature};
use crate::tesla::chain::ChainKey;
use crate::tesla::mac::TeslaMacAlg;
use crate::tesla::schedule::TeslaSchedule;

verus! {

/// Domain separator.
pub const DOMAIN: &'static str = "MLS-SRTP TESLA commitment";

/// What the sender commits to, before its stream starts.
#[derive(Debug, PartialEq, Eq)]
pub struct TeslaCommitment {
    /// The chain's public starting point `K_0`.
    pub anchor: ChainKey,
    /// The schedule: when interval 1 begins...
    pub t0_ns: u64,
    /// ...how long each interval lasts...
    pub t_int_ns: u64,
    /// ...the disclosure delay...
    pub d: u32,
    /// ...and how many intervals exist.
    pub n_chain: u32,
    /// Which MAC algorithm tags this stream's packets.
    pub mac_alg: TeslaMacAlg,
    /// Context binding: the sender's credential identity...
    pub sender_identity: Vec<u8>,
    /// ...its stream...
    pub ssrc: u32,
    /// ...and the MLS group and epoch that this commitment belongs to.
    pub group_id: Vec<u8>,
    pub epoch: u64,
}

/// What a commitment says.
#[verifier::ext_equal]
pub struct CommitmentFields {
    pub anchor: Seq<u8>,
    pub t0_ns: u64,
    pub t_int_ns: u64,
    pub d: u32,
    pub n_chain: u32,
    pub mac_alg: TeslaMacAlg,
    pub sender_identity: Seq<u8>,
    pub ssrc: u32,
    pub group_id: Seq<u8>,
    pub epoch: u64,
}

impl View for TeslaCommitment {
    type V = CommitmentFields;

    open spec fn view(&self) -> CommitmentFields {
        CommitmentFields {
            anchor: self.anchor@,
            t0_ns: self.t0_ns,
            t_int_ns: self.t_int_ns,
            d: self.d,
            n_chain: self.n_chain,
            mac_alg: self.mac_alg,
            sender_identity: self.sender_identity@,
            ssrc: self.ssrc,
            group_id: self.group_id@,
            epoch: self.epoch,
        }
    }
}

/// The byte that stands for a MAC algorithm.
pub open spec fn alg_byte(alg: TeslaMacAlg) -> u8 {
    match alg {
        TeslaMacAlg::HmacSha256 => 0,
        TeslaMacAlg::GmacAes128 => 1,
    }
}

/// A variable-length field: its length as a 32-bit number, then its bytes.
pub open spec fn prefixed(bytes: Seq<u8>) -> Seq<u8> {
    crate::bytes::be32((bytes.len() % 0x1_0000_0000) as u32) + bytes
}

/// The first part of the signed bytes: domain separator, anchor, schedule and
/// MAC algorithm, all of fixed length.
pub open spec fn schedule_part(c: CommitmentFields) -> Seq<u8> {
    crate::bytes::text_bytes(DOMAIN@) + c.anchor + crate::bytes::be64(c.t0_ns) + crate::bytes::be64(
        c.t_int_ns,
    ) + crate::bytes::be32(c.d) + crate::bytes::be32(c.n_chain) + seq![alg_byte(c.mac_alg)]
}

/// The second part of the signed bytes: sender, stream, group and epoch.
pub open spec fn context_part(c: CommitmentFields) -> Seq<u8> {
    prefixed(c.sender_identity) + (crate::bytes::be32(c.ssrc) + (prefixed(c.group_id)
        + crate::bytes::be64(c.epoch)))
}

/// The signed bytes: domain separator, then every field in a fixed order,
/// variable-length fields behind their length.
pub open spec fn signed_bytes(c: CommitmentFields) -> Seq<u8> {
    schedule_part(c) + context_part(c)
}

/// Two concatenations whose first parts have equal lengths are equal only
/// where both parts are.
proof fn lemma_split_equal(a: Seq<u8>, x: Seq<u8>, b: Seq<u8>, y: Seq<u8>)
    requires
        a + x == b + y,
        a.len() == b.len(),
    ensures
        a == b,
        x == y,
{
    let s = a + x;
    let t = b + y;
    assert(s.subrange(0, a.len() as int) =~= a);
    assert(t.subrange(0, b.len() as int) =~= b);
    assert(s.subrange(a.len() as int, s.len() as int) =~= x);
    assert(t.subrange(b.len() as int, t.len() as int) =~= y);
}

/// A variable-length field ends where its length says.
proof fn lemma_prefixed_equal(a: Seq<u8>, x: Seq<u8>, b: Seq<u8>, y: Seq<u8>)
    requires
        prefixed(a) + x == prefixed(b) + y,
        a.len() <= u32::MAX,
        b.len() <= u32::MAX,
    ensures
        a == b,
        x == y,
{
    let la = crate::bytes::be32(a.len() as u32);
    let lb = crate::bytes::be32(b.len() as u32);
    assert(prefixed(a) + x =~= la + (a + x));
    assert(prefixed(b) + y =~= lb + (b + y));
    lemma_split_equal(la, a + x, lb, b + y);
    crate::bytes::lemma_be32_injective(a.len() as u32, b.len() as u32);
    lemma_split_equal(a, x, b, y);
}

/// The first part of the signed bytes has a fixed length.
proof fn lemma_schedule_part_len(c: CommitmentFields)
    ensures
        schedule_part(c).len() == crate::bytes::text_bytes(DOMAIN@).len() + c.anchor.len() + 25,
{
}

/// The second part of the signed bytes fixes its fields.
proof fn lemma_context_part_injective(a: CommitmentFields, b: CommitmentFields)
    requires
        a.sender_identity.len() <= u32::MAX,
        b.sender_identity.len() <= u32::MAX,
        a.group_id.len() <= u32::MAX,
        b.group_id.len() <= u32::MAX,
        context_part(a) == context_part(b),
    ensures
        a.sender_identity == b.sender_identity,
        a.ssrc == b.ssrc,
        a.group_id == b.group_id,
        a.epoch == b.epoch,
{
    let ga = prefixed(a.group_id) + crate::bytes::be64(a.epoch);
    let gb = prefixed(b.group_id) + crate::bytes::be64(b.epoch);
    let sa = crate::bytes::be32(a.ssrc);
    let sb = crate::bytes::be32(b.ssrc);
    lemma_prefixed_equal(a.sender_identity, sa + ga, b.sender_identity, sb + gb);
    lemma_split_equal(sa, ga, sb, gb);
    crate::bytes::lemma_be32_injective(a.ssrc, b.ssrc);
    lemma_prefixed_equal(
        a.group_id,
        crate::bytes::be64(a.epoch),
        b.group_id,
        crate::bytes::be64(b.epoch),
    );
    crate::bytes::lemma_be64_injective(a.epoch, b.epoch);
}

/// The first part of the signed bytes fixes its fields.
proof fn lemma_schedule_part_injective(a: CommitmentFields, b: CommitmentFields)
    requires
        a.anchor.len() == b.anchor.len(),
        schedule_part(a) == schedule_part(b),
    ensures
        a.anchor == b.anchor,
        a.t0_ns == b.t0_ns,
        a.t_int_ns == b.t_int_ns,
        a.d == b.d,
        a.n_chain == b.n_chain,
        a.mac_alg == b.mac_alg,
{
    let domain = crate::bytes::text_bytes(DOMAIN@);
    let a1 = domain + a.anchor;
    let b1 = domain + b.anchor;
    let a2 = a1 + crate::bytes::be64(a.t0_ns);
    let b2 = b1 + crate::bytes::be64(b.t0_ns);
    let a3 = a2 + crate::bytes::be64(a.t_int_ns);
    let b3 = b2 + crate::bytes::be64(b.t_int_ns);
    let a4 = a3 + crate::bytes::be32(a.d);
    let b4 = b3 + crate::bytes::be32(b.d);
    let a5 = a4 + crate::bytes::be32(a.n_chain);
    let b5 = b4 + crate::bytes::be32(b.n_chain);
    lemma_split_equal(a5, seq![alg_byte(a.mac_alg)], b5, seq![alg_byte(b.mac_alg)]);
    assert(seq![alg_byte(a.mac_alg)][0] == seq![alg_byte(b.mac_alg)][0]);
    lemma_split_equal(a4, crate::bytes::be32(a.n_chain), b4, crate::bytes::be32(b.n_chain));
    crate::bytes::lemma_be32_injective(a.n_chain, b.n_chain);
    lemma_split_equal(a3, crate::bytes::be32(a.d), b3, crate::bytes::be32(b.d));
    crate::bytes::lemma_be32_injective(a.d, b.d);
    lemma_split_equal(a2, crate::bytes::be64(a.t_int_ns), b2, crate::bytes::be64(b.t_int_ns));
    crate::bytes::lemma_be64_injective(a.t_int_ns, b.t_int_ns);
    lemma_split_equal(a1, crate::bytes::be64(a.t0_ns), b1, crate::bytes::be64(b.t0_ns));
    crate::bytes::lemma_be64_injective(a.t0_ns, b.t0_ns);
    lemma_split_equal(domain, a.anchor, domain, b.anchor);
}

/// Law: the signed bytes fix every field. Two commitments with the same bytes
/// are the same commitment, so a signature over one vouches for no other. Left
/// out: an identity or a group id of 4 GiB or more, whose length the prefix
/// does not hold.
pub proof fn law_signed_bytes_fix_every_field(a: CommitmentFields, b: CommitmentFields)
    requires
        a.anchor.len() == b.anchor.len(),
        a.sender_identity.len() <= u32::MAX,
        b.sender_identity.len() <= u32::MAX,
        a.group_id.len() <= u32::MAX,
        b.group_id.len() <= u32::MAX,
        signed_bytes(a) == signed_bytes(b),
    ensures
        a == b,
{
    lemma_schedule_part_len(a);
    lemma_schedule_part_len(b);
    lemma_split_equal(schedule_part(a), context_part(a), schedule_part(b), context_part(b));
    lemma_schedule_part_injective(a, b);
    lemma_context_part_injective(a, b);
}

/// Whether a signature over a commitment checks out under a public key.
pub open spec fn checks_out(c: CommitmentFields, signature: Seq<u8>, public_key: Seq<u8>) -> bool {
    crate::crypto::ed25519_accepts(public_key, signed_bytes(c), signature)
}

impl TeslaCommitment {
    /// The schedule's numbers are ones that [`TeslaSchedule::new`] accepts.
    pub open spec fn schedulable(&self) -> bool {
        self.t_int_ns > 0 && self.d >= 2 && self.n_chain >= 1
    }

    /// The bytes that get signed.
    pub fn to_bytes(&self) -> (r: Vec<u8>)
        ensures
            r@ == signed_bytes(self@),
    {
        let mut out: Vec<u8> = Vec::new();
        push_slice(&mut out, DOMAIN.as_bytes());
        push_slice(&mut out, self.anchor.as_slice());
        push_be64(&mut out, self.t0_ns);
        push_be64(&mut out, self.t_int_ns);
        push_be32(&mut out, self.d);
        push_be32(&mut out, self.n_chain);
        out.push(
            match self.mac_alg {
                TeslaMacAlg::HmacSha256 => 0u8,
                TeslaMacAlg::GmacAes128 => 1u8,
            },
        );
        assert(out@ =~= schedule_part(self@));
        push_prefixed(&mut out, self.sender_identity.as_slice());
        push_be32(&mut out, self.ssrc);
        push_prefixed(&mut out, self.group_id.as_slice());
        push_be64(&mut out, self.epoch);
        assert(out@ =~= signed_bytes(self@));
        out
    }

    /// Signs the commitment with the sender's MLS leaf key. What is signed here
    /// checks out under that key's public half.
    pub fn sign(&self, signer: &SignatureKeyPair) -> (r: Vec<u8>)
        requires
            crate::crypto::signer_ready(*signer),
        ensures
            r@ == crate::crypto::signature_by(*signer, signed_bytes(self@)),
            checks_out(self@, r@, crate::crypto::signer_public(*signer)),
            crate::crypto::ed25519_accepts(
                crate::crypto::signer_public(*signer),
                signed_bytes(self@),
                r@,
            ),
    {
        sign(signer, self.to_bytes().as_slice())
    }

    /// Checks the signature against the sender's public key. A receiver
    /// accepts the commitment, and with it the anchor and the schedule, only
    /// if this passes.
    pub fn verify(
        &self,
        signature: &[u8],
        sender_public_key: &[u8],
        crypto: &RustCrypto,
    ) -> (r: bool)
        ensures
            r == checks_out(self@, signature@, sender_public_key@),
            r == crate::crypto::ed25519_accepts(
                sender_public_key@,
                signed_bytes(self@),
                signature@,
            ),
    {
        verify_signature(crypto, self.to_bytes().as_slice(), sender_public_key, signature)
    }

    /// The schedule that this commitment pins, completed with the two
    /// receiver-local values: the clock bound (from the receiver's time sync)
    /// and the hash-work cap.
    pub fn schedule(&self, d_t_ns: u64, g_max: u32) -> (r: TeslaSchedule)
        requires
            self.schedulable(),
            g_max >= 1,
        ensures
            r == (TeslaSchedule {
                t0_ns: self.t0_ns,
                t_int_ns: self.t_int_ns,
                d: self.d,
                n_chain: self.n_chain,
                d_t_ns,
                g_max,
            }),
            r.valid(),
    {
        TeslaSchedule::new(self.t0_ns, self.t_int_ns, self.d, self.n_chain, d_t_ns, g_max)
    }
}

impl Clone for TeslaCommitment {
    fn clone(&self) -> (r: Self)
        ensures
            r@ == self@,
    {
        let sender_identity = self.sender_identity.clone();
        let group_id = self.group_id.clone();
        assert(sender_identity@ =~= self.sender_identity@);
        assert(group_id@ =~= self.group_id@);
        TeslaCommitment {
            anchor: self.anchor,
            t0_ns: self.t0_ns,
            t_int_ns: self.t_int_ns,
            d: self.d,
            n_chain: self.n_chain,
            mac_alg: self.mac_alg,
            sender_identity,
            ssrc: self.ssrc,
            group_id,
            epoch: self.epoch,
        }
    }
}

/// Appends a variable-length field: its length, then its bytes.
fn push_prefixed(out: &mut Vec<u8>, bytes: &[u8])
    ensures
        final(out)@ == old(out)@ + prefixed(bytes@),
{
    let len: u64 = bytes.len() as u64;
    push_be32(out, (len % 0x1_0000_0000) as u32);
    push_slice(out, bytes);
    assert(out@ =~= old(out)@ + prefixed(bytes@));
}

/// Law: a signature vouches for one commitment. It checks out exactly if the key
/// accepts it over this commitment's own bytes, whatever else it was made over;
/// and a commitment that differs in any field has other bytes. Left out: an
/// identity or a group id of 4 GiB or more, whose length the prefix does not hold.
pub proof fn law_signature_is_over_this_commitment(
    c: CommitmentFields,
    other: CommitmentFields,
    signature: Seq<u8>,
    public_key: Seq<u8>,
)
    requires
        c.anchor.len() == other.anchor.len(),
        c.sender_identity.len() <= u32::MAX,
        other.sender_identity.len() <= u32::MAX,
        c.group_id.len() <= u32::MAX,
        other.group_id.len() <= u32::MAX,
    ensures
        checks_out(c, signature, public_key) <==> crate::crypto::ed25519_accepts(
            public_key,
            signed_bytes(c),
            signature,
        ),
        c != other ==> signed_bytes(c) != signed_bytes(other),
{
    if signed_bytes(c) == signed_bytes(other) {
        law_signed_bytes_fix_every_field(c, other);
    }
}

/// Law: what is signed, in which order. After the domain separator come the
/// anchor, the schedule and the algorithm, then the sender behind its length, the
/// stream, the group behind its length, and the epoch. Left out: an identity or a
/// group id of 4 GiB or more, whose length the prefix does not hold.
pub proof fn law_signed_bytes_layout(c: CommitmentFields)
    requires
        c.sender_identity.len() <= u32::MAX,
        c.group_id.len() <= u32::MAX,
    ensures
        signed_bytes(c) == (crate::bytes::text_bytes("MLS-SRTP TESLA commitment"@) + c.anchor
            + crate::bytes::be64(c.t0_ns) + crate::bytes::be64(c.t_int_ns) + crate::bytes::be32(c.d)
            + crate::bytes::be32(c.n_chain) + seq![
            if c.mac_alg is HmacSha256 { 0u8 } else { 1u8 },
        ]) + ((crate::bytes::be32(c.sender_identity.len() as u32) + c.sender_identity) + (
        crate::bytes::be32(c.ssrc) + ((crate::bytes::be32(c.group_id.len() as u32) + c.group_id)
            + crate::bytes::be64(c.epoch)))),
{
    assert(c.sender_identity.len() % 0x1_0000_0000 == c.sender_identity.len());
    assert(c.group_id.len() % 0x1_0000_0000 == c.group_id.len());
}

} // verus!
