//! The TESLA MAC: the tag each packet carries under its interval's secret key.
//! Two interchangeable algorithms, both cut to 10 bytes:
//!
//! - HMAC-SHA256
//! - GMAC: AES-128-GCM run with no plaintext
//!
//! The tag covers every byte of the packet and its position. The header's
//! sequence number is 16-bit and wraps, so packet `n` and packet `n + 65536`
//! have identical headers; were the position left out, a recorded packet could
//! be replayed one wrap later.

use vstd::prelude::*;

use crate::bytes::{array_at, push_be32, push_be64};
use crate::crypto::{gmac_tag, hmac_tag};
use crate::tesla::chain::{mac_key, ChainKey};

verus! {

/// TESLA MAC length in bytes: 80 bits.
pub const TESLA_MAC_LEN: usize = 10;

/// Which TESLA MAC a stream runs.
#[derive(Debug, Clone, Copy, PartialEq, Eq, Structural)]
pub enum TeslaMacAlg {
    /// HMAC-SHA256.
    HmacSha256,
    /// GMAC: AES-128-GCM over empty plaintext.
    GmacAes128,
}

/// How often the 16-bit sequence number has wrapped at a position, as a 32-bit
/// number.
pub open spec fn rollover_count(ext_index: u64) -> u32 {
    (ext_index / 0x1_0000 % 0x1_0000_0000) as u32
}

/// What HMAC runs over: the rollover count, then the packet.
pub open spec fn hmac_input(ext_index: u64, packet: Seq<u8>) -> Seq<u8> {
    crate::bytes::be32(rollover_count(ext_index)) + packet
}

/// The nonce that GMAC runs under: the full position, in 12 bytes.
pub open spec fn gmac_nonce(ext_index: u64) -> Seq<u8> {
    crate::bytes::be32(0) + crate::bytes::be64(ext_index)
}

/// The tag of a packet at a position under a MAC key.
pub open spec fn tag_under(
    alg: TeslaMacAlg,
    key: Seq<u8>,
    ext_index: u64,
    packet: Seq<u8>,
) -> Seq<u8> {
    match alg {
        TeslaMacAlg::HmacSha256 => crate::bytes::first_bytes(
            crate::crypto::hmac_sha256(key, hmac_input(ext_index, packet)),
            TESLA_MAC_LEN as nat,
        ),
        TeslaMacAlg::GmacAes128 => crate::bytes::first_bytes(
            crate::crypto::gmac_aes128(key, gmac_nonce(ext_index), packet),
            TESLA_MAC_LEN as nat,
        ),
    }
}

/// The tag of a packet at a position under its interval's chain key.
pub open spec fn packet_tag(
    alg: TeslaMacAlg,
    chain_key: Seq<u8>,
    ext_index: u64,
    packet: Seq<u8>,
) -> Seq<u8> {
    tag_under(
        alg,
        crate::tesla::chain::mac_key_of(chain_key, alg.key_len()),
        ext_index,
        packet,
    )
}

/// Law: what a MAC runs over fixes the packet and its position. HMAC's message
/// tells apart two packets and two rollover counts; GMAC's nonce tells apart
/// any two positions.
pub proof fn law_mac_input_binds_packet_and_position(
    i: u64,
    p: Seq<u8>,
    j: u64,
    q: Seq<u8>,
)
    ensures
        hmac_input(i, p) == hmac_input(j, q) ==> p == q && rollover_count(i) == rollover_count(j),
        gmac_nonce(i) == gmac_nonce(j) ==> i == j,
        gmac_nonce(i).len() == 12,
{
    if hmac_input(i, p) == hmac_input(j, q) {
        let a = hmac_input(i, p);
        let b = hmac_input(j, q);
        assert(a.subrange(0, 4) =~= crate::bytes::be32(rollover_count(i)));
        assert(b.subrange(0, 4) =~= crate::bytes::be32(rollover_count(j)));
        crate::bytes::lemma_be32_injective(rollover_count(i), rollover_count(j));
        assert(a.subrange(4, a.len() as int) =~= p);
        assert(b.subrange(4, b.len() as int) =~= q);
    }
    if gmac_nonce(i) == gmac_nonce(j) {
        assert(gmac_nonce(i).subrange(4, 12) =~= crate::bytes::be64(i));
        assert(gmac_nonce(j).subrange(4, 12) =~= crate::bytes::be64(j));
        crate::bytes::lemma_be64_injective(i, j);
    }
}

impl TeslaMacAlg {
    /// The length of the MAC key.
    pub open spec fn key_len(self) -> nat {
        match self {
            TeslaMacAlg::HmacSha256 => 32,
            TeslaMacAlg::GmacAes128 => 16,
        }
    }

    /// Whether the algorithm takes a packet of this length: GMAC counts its
    /// input in a C `int`.
    pub open spec fn takes(self, len: nat) -> bool {
        self == TeslaMacAlg::GmacAes128 ==> len <= 0x7fff_ffff
    }

    /// The length of the MAC key, `F'`'s output.
    pub fn mac_key_len(&self) -> (r: usize)
        ensures
            r == self.key_len(),
    {
        match self {
            TeslaMacAlg::HmacSha256 => 32,
            TeslaMacAlg::GmacAes128 => 16,
        }
    }

    /// Derives an interval's MAC key from its chain key. Called once per
    /// interval.
    pub fn prepare(&self, chain_key: &ChainKey) -> (r: PreparedMac)
        ensures
            r.wf(),
            r.alg() == *self,
            r.key() == crate::tesla::chain::mac_key_of(chain_key@, self.key_len()),
            r.key().len() == if *self is HmacSha256 { 32nat } else { 16nat },
            forall|i: int|
                0 <= i < r.key().len() ==> #[trigger] r.key()[i] == crate::crypto::hmac_sha256(
                    chain_key@,
                    seq![0x01u8],
                )[i],
    {
        let key = mac_key(chain_key, self.mac_key_len());
        PreparedMac { alg: *self, key }
    }
}

/// The MAC of one interval: the algorithm, and the key it runs under.
pub struct PreparedMac {
    alg: TeslaMacAlg,
    key: Vec<u8>,
}

impl PreparedMac {
    pub closed spec fn alg(&self) -> TeslaMacAlg {
        self.alg
    }

    pub closed spec fn key(&self) -> Seq<u8> {
        self.key@
    }

    /// The key has the length that the algorithm takes.
    pub open spec fn wf(&self) -> bool {
        self.key().len() == self.alg().key_len()
    }

    /// Tags one packet: `packet` is every byte before the TESLA extension,
    /// `ext_index` the packet's full index.
    pub fn tag(&self, ext_index: u64, packet: &[u8]) -> (r: [u8; TESLA_MAC_LEN])
        requires
            self.wf(),
            self.alg().takes(packet@.len()),
        ensures
            r@ == tag_under(self.alg(), self.key(), ext_index, packet@),
            forall|i: int|
                0 <= i < 10 && self.alg() is HmacSha256 ==> #[trigger] r@[i]
                    == crate::crypto::hmac_sha256(
                    self.key(),
                    crate::bytes::be32((ext_index / 0x1_0000 % 0x1_0000_0000) as u32) + packet@,
                )[i],
            forall|i: int|
                0 <= i < 10 && self.alg() is GmacAes128 ==> #[trigger] r@[i]
                    == crate::crypto::gmac_aes128(
                    self.key(),
                    crate::bytes::be32(0) + crate::bytes::be64(ext_index),
                    packet@,
                )[i],
    {
        match self.alg {
            TeslaMacAlg::HmacSha256 => {
                let mut roc: Vec<u8> = Vec::new();
                push_be32(&mut roc, (ext_index / 0x1_0000 % 0x1_0000_0000) as u32);
                let full = hmac_tag(self.key.as_slice(), roc.as_slice(), packet);
                assert(roc@ + packet@ =~= hmac_input(ext_index, packet@));
                array_at(full.as_slice(), 0)
            },
            TeslaMacAlg::GmacAes128 => {
                let mut nonce: Vec<u8> = Vec::new();
                push_be32(&mut nonce, 0);
                push_be64(&mut nonce, ext_index);
                assert(nonce@ =~= gmac_nonce(ext_index));
                let full = gmac_tag(self.key.as_slice(), nonce.as_slice(), packet);
                array_at(full.as_slice(), 0)
            },
        }
    }
}

/// Law: the tag covers the whole packet and its position. It is ten bytes long:
/// for HMAC the first ten of HMAC-SHA256 over the rollover count, in four bytes,
/// and every byte of the packet; for GMAC the first ten of the GCM tag over every
/// byte of the packet, under the position as the nonce.
pub proof fn law_tag_covers_the_whole_packet(key: Seq<u8>, ext_index: u64, packet: Seq<u8>)
    ensures
        ({
            let tag = tag_under(TeslaMacAlg::HmacSha256, key, ext_index, packet);
            let message = crate::bytes::be32((ext_index / 0x1_0000 % 0x1_0000_0000) as u32)
                + packet;
            &&& tag.len() == 10
            &&& forall|i: int|
                0 <= i < 10 ==> #[trigger] tag[i] == crate::crypto::hmac_sha256(key, message)[i]
        }),
        ({
            let tag = tag_under(TeslaMacAlg::GmacAes128, key, ext_index, packet);
            let nonce = crate::bytes::be32(0) + crate::bytes::be64(ext_index);
            &&& tag.len() == 10
            &&& forall|i: int|
                0 <= i < 10 ==> #[trigger] tag[i] == crate::crypto::gmac_aes128(
                    key,
                    nonce,
                    packet,
                )[i]
        }),
{
}

/// Law: a packet is tagged under a key of its own interval, which is not the
/// chain key: the MAC key is the start of HMAC-SHA256 of 0x01 under it, 32 bytes
/// for HMAC and 16 for GMAC.
pub proof fn law_packet_is_tagged_under_its_interval(
    alg: TeslaMacAlg,
    chain_key: Seq<u8>,
    mac_key: Seq<u8>,
    ext_index: u64,
    packet: Seq<u8>,
)
    requires
        mac_key.len() == if alg is HmacSha256 { 32nat } else { 16nat },
        forall|i: int|
            0 <= i < mac_key.len() ==> #[trigger] mac_key[i] == crate::crypto::hmac_sha256(
                chain_key,
                seq![0x01u8],
            )[i],
    ensures
        packet_tag(alg, chain_key, ext_index, packet) == tag_under(alg, mac_key, ext_index, packet),
{
    assert(crate::tesla::chain::mac_key_of(chain_key, alg.key_len()) =~= mac_key);
}

} // verus!
