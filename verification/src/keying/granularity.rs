//! How often a stream changes its key, and the stream that does so.
//!
//! A generation is the span that shares one SRTP key (see
//! [`crate::keying::ratchet`]). The granularity decides how long that span is:
//!   - [`Granularity::EpochOnly`]: one key for the whole epoch;
//!   - [`Granularity::Frame`]: one key per video frame (rekey when the RTP
//!     timestamp changes, since all packets of a frame share a timestamp);
//!   - [`Granularity::Packet`]: one key per packet;
//!   - [`Granularity::EveryN`]: one key per `n` consecutive packets.
//!
//! [`RekeyingStream`] ties a [`StreamRatchet`] and a granularity together. It
//! is told of each packet in turn and answers with the key to install in the
//! cipher before that packet, where a new generation begins. It keeps a single
//! key and only moves forward: right for a sender, and for a receiver that
//! gets its packets in order.

use openmls_rust_crypto::RustCrypto;
use vstd::prelude::*;

use crate::bytes::read_be32;
use crate::crypto::fresh_crypto;
use crate::keying::ratchet::{KeySalt, StreamRatchet};
use crate::transport::rtp::RTP_HEADER_LEN;

verus! {

/// How often the SRTP key is rotated within one epoch.
#[derive(Debug, Clone, Copy, PartialEq, Eq)]
pub enum Granularity {
    /// One key for the whole epoch: never rekey within the epoch.
    EpochOnly,
    /// One key per video frame: rekey when the RTP timestamp changes.
    Frame,
    /// One key per packet: rekey on every packet.
    Packet,
    /// One key per `n` consecutive packets: rekey when the packet count
    /// crosses a multiple of `n`. Packet-level keying is the case of one,
    /// frame-level keying that of the packets in a frame.
    EveryN(u32),
}

/// What a [`RekeyingStream`] knows.
#[verifier::ext_equal]
pub struct RekeyingState {
    pub granularity: Granularity,
    pub ssrc: u32,
    /// Generation whose key is in the cipher, and that key and salt.
    pub generation: nat,
    pub key_salt: Seq<u8>,
    /// The chain secret of the generation after it.
    pub secret: Seq<u8>,
    /// Timestamp of the previous packet; `None` before the first.
    pub last_ts: Option<u32>,
    /// Packets so far.
    pub packet_count: nat,
}

/// A stream at its start: the ratchet's current generation is installed.
pub open spec fn stream_start(
    granularity: Granularity,
    ssrc: u32,
    secret: Seq<u8>,
    generation: nat,
) -> RekeyingState {
    RekeyingState {
        granularity,
        ssrc,
        generation,
        key_salt: crate::keying::ratchet::key_salt_of(secret),
        secret: crate::keying::ratchet::next_secret(secret),
        last_ts: None,
        packet_count: 0,
    }
}

/// Whether a packet with timestamp `ts` begins a new generation. The first
/// packet of a stream never does.
pub open spec fn begins_generation(s: RekeyingState, ts: u32) -> bool {
    s.packet_count > 0 && match s.granularity {
        Granularity::EpochOnly => false,
        Granularity::Packet => true,
        Granularity::Frame => s.last_ts != Some(ts),
        Granularity::EveryN(n) => s.packet_count % (n as nat) == 0,
    }
}

impl RekeyingState {
    /// Whether a packet with timestamp `ts` can be taken: the counters have
    /// room for it, and its boundary test divides by no zero.
    pub open spec fn takes(self, ts: u32) -> bool {
        &&& self.packet_count < u64::MAX
        &&& self.granularity == Granularity::EveryN(0) ==> self.packet_count == 0
        &&& begins_generation(self, ts) ==> self.generation + 1 < u64::MAX
    }
}

/// The stream after a packet with timestamp `ts`.
pub open spec fn after_packet(s: RekeyingState, ts: u32) -> RekeyingState {
    let moved = begins_generation(s, ts);
    RekeyingState {
        generation: if moved { s.generation + 1 } else { s.generation },
        key_salt: if moved { crate::keying::ratchet::key_salt_of(s.secret) } else { s.key_salt },
        secret: if moved { crate::keying::ratchet::next_secret(s.secret) } else { s.secret },
        last_ts: Some(ts),
        packet_count: s.packet_count + 1,
        ..s
    }
}

/// The stream after packets with these timestamps, in order.
pub open spec fn after_packets(s: RekeyingState, timestamps: Seq<u32>) -> RekeyingState
    decreases timestamps.len(),
{
    if timestamps.len() == 0 {
        s
    } else {
        after_packet(after_packets(s, timestamps.drop_last()), timestamps.last())
    }
}

/// How often the timestamp changes from one packet to the next.
pub open spec fn timestamp_changes(timestamps: Seq<u32>) -> nat
    decreases timestamps.len(),
{
    if timestamps.len() < 2 {
        0
    } else {
        timestamp_changes(timestamps.drop_last()) + if timestamps[timestamps.len() - 2]
            != timestamps.last() { 1nat } else { 0nat }
    }
}

/// How many generations a stream has begun after its first, once it has seen
/// packets with these timestamps.
pub open spec fn generations_begun(granularity: Granularity, timestamps: Seq<u32>) -> nat {
    if timestamps.len() == 0 {
        0
    } else {
        match granularity {
            Granularity::EpochOnly => 0,
            Granularity::Packet => (timestamps.len() - 1) as nat,
            Granularity::Frame => timestamp_changes(timestamps),
            Granularity::EveryN(n) => ((timestamps.len() - 1) as nat) / (n as nat),
        }
    }
}

/// For `m` at least one, `m / n` is one more than `(m - 1) / n` exactly when
/// `n` divides `m`.
proof fn lemma_quotient_steps(m: nat, n: nat)
    requires
        m >= 1,
        n >= 1,
    ensures
        m / n == ((m - 1) as nat) / n + if m % n == 0 { 1nat } else { 0nat },
{
    let q = ((m - 1) as nat) / n;
    let r = ((m - 1) as nat) % n;
    vstd::arithmetic::div_mod::lemma_fundamental_div_mod(m - 1, n as int);
    if r + 1 == n {
        assert(m == (q + 1) * n) by (nonlinear_arith)
            requires
                m - 1 == n * q + r,
                r + 1 == n,
        ;
        vstd::arithmetic::div_mod::lemma_fundamental_div_mod_converse(
            m as int,
            n as int,
            (q + 1) as int,
            0,
        );
    } else {
        assert(m == q * n + (r + 1)) by (nonlinear_arith)
            requires
                m - 1 == n * q + r,
        ;
        vstd::arithmetic::div_mod::lemma_fundamental_div_mod_converse(
            m as int,
            n as int,
            q as int,
            (r + 1) as int,
        );
    }
}

/// Law: how far a stream has ratcheted depends on its granularity and its
/// packets alone. One key serves the epoch, or each frame, or each packet, or
/// each `n` packets; and the key in the cipher is always that of the
/// generation it is counted as.
pub proof fn law_stream_follows_granularity(
    granularity: Granularity,
    ssrc: u32,
    secret: Seq<u8>,
    generation: nat,
    timestamps: Seq<u32>,
)
    requires
        granularity != Granularity::EveryN(0),
    ensures
        ({
            let s = after_packets(stream_start(granularity, ssrc, secret, generation), timestamps);
            let begun = generations_begun(granularity, timestamps);
            &&& s.generation == generation + begun
            &&& s.key_salt == crate::keying::ratchet::key_salt_after(secret, begun)
            &&& s.secret == crate::keying::ratchet::secret_after(secret, begun + 1)
            &&& s.packet_count == timestamps.len()
            &&& s.granularity == granularity
            &&& s.ssrc == ssrc
            &&& s.last_ts == if timestamps.len() == 0 { None } else { Some(timestamps.last()) }
        }),
    decreases timestamps.len(),
{
    reveal_with_fuel(crate::keying::ratchet::secret_after, 2);
    if timestamps.len() > 0 {
        let before = timestamps.drop_last();
        law_stream_follows_granularity(granularity, ssrc, secret, generation, before);
        if let Granularity::EveryN(n) = granularity {
            if before.len() > 0 {
                lemma_quotient_steps(before.len(), n as nat);
            }
        }
        if before.len() > 0 {
            assert(before.last() == timestamps[timestamps.len() - 2]);
        }
    }
}

/// A single-SSRC stream that rekeys at the boundary set by its
/// [`Granularity`], driving the [`StreamRatchet`] one generation per boundary.
pub struct RekeyingStream {
    ratchet: StreamRatchet,
    crypto: RustCrypto,
    granularity: Granularity,
    ssrc: u32,
    /// Generation whose key is in the cipher.
    installed_gen: u64,
    /// That key and salt.
    key_salt: KeySalt,
    /// RTP timestamp of the previous packet, for frame-boundary detection.
    last_ts: Option<u32>,
    /// Whether at least one packet has been processed.
    started: bool,
    /// Packets processed so far, for the every-n-packets boundary rule.
    packet_count: u64,
}

impl View for RekeyingStream {
    type V = RekeyingState;

    closed spec fn view(&self) -> RekeyingState {
        RekeyingState {
            granularity: self.granularity,
            ssrc: self.ssrc,
            generation: self.installed_gen as nat,
            key_salt: self.key_salt@,
            secret: self.ratchet.secret(),
            last_ts: self.last_ts,
            packet_count: self.packet_count as nat,
        }
    }
}

impl RekeyingStream {
    /// The ratchet stands one generation past the installed one, and the
    /// stream has a previous timestamp once it has seen a packet.
    pub closed spec fn wf(&self) -> bool {
        &&& self.ratchet.wf()
        &&& self.ratchet.index() == self.installed_gen + 1
        &&& self.started == (self.packet_count > 0)
        &&& self.last_ts is Some == self.started
    }

    /// Creates a stream for `ssrc`, driven by `ratchet` at the given
    /// granularity. The ratchet's current generation is the first to be
    /// installed: its key is [`RekeyingStream::installed_key`].
    pub fn new(granularity: Granularity, ssrc: u32, ratchet: StreamRatchet) -> (r: Self)
        requires
            ratchet.wf(),
            ratchet.index() < u64::MAX,
        ensures
            r.wf(),
            r@ == stream_start(granularity, ssrc, ratchet.secret(), ratchet.index() as nat),
    {
        let crypto = fresh_crypto();
        let mut ratchet = ratchet;
        let (g, key_salt) = ratchet.next_key_salt(&crypto);
        RekeyingStream {
            ratchet,
            crypto,
            granularity,
            ssrc,
            installed_gen: g,
            key_salt,
            last_ts: None,
            started: false,
            packet_count: 0,
        }
    }

    /// Generation whose key is in the cipher.
    pub fn generation(&self) -> (r: u64)
        ensures
            r == self@.generation,
    {
        self.installed_gen
    }

    /// The stream whose packets these are.
    pub fn ssrc(&self) -> (r: u32)
        ensures
            r == self@.ssrc,
    {
        self.ssrc
    }

    /// The key and salt of the installed generation.
    pub fn installed_key(&self) -> (r: &KeySalt)
        ensures
            r@ == self@.key_salt,
    {
        &self.key_salt
    }

    /// Takes the next generation's key and salt off the ratchet.
    fn install_next_generation(&mut self)
        requires
            old(self).wf(),
            old(self)@.generation + 1 < u64::MAX,
        ensures
            final(self).wf(),
            final(self)@ == (RekeyingState {
                generation: old(self)@.generation + 1,
                key_salt: crate::keying::ratchet::key_salt_of(old(self)@.secret),
                secret: crate::keying::ratchet::next_secret(old(self)@.secret),
                ..old(self)@
            }),
    {
        let (g, key_salt) = self.ratchet.next_key_salt(&self.crypto);
        self.installed_gen = g;
        self.key_salt = key_salt;
    }

    /// Advances to the generation of the next packet, which has the RTP
    /// timestamp `ts`. Where that packet begins a new generation, returns the
    /// key and salt to install in the cipher before it.
    pub fn advance_for(&mut self, ts: u32) -> (r: Option<KeySalt>)
        requires
            old(self).wf(),
            old(self)@.takes(ts),
        ensures
            final(self).wf(),
            final(self)@ == after_packet(old(self)@, ts),
            r is Some == begins_generation(old(self)@, ts),
            r matches Some(key_salt) ==> key_salt@ == final(self)@.key_salt,
    {
        let crossed_boundary: bool = match self.granularity {
            Granularity::EpochOnly => false,
            Granularity::Packet => self.started,
            Granularity::Frame => self.started && match self.last_ts {
                Some(last) => last != ts,
                None => true,
            },
            Granularity::EveryN(n) => self.started && self.packet_count % n as u64 == 0,
        };
        let mut install: Option<KeySalt> = None;
        if crossed_boundary {
            self.install_next_generation();
            install = Some(self.key_salt);
        }
        self.last_ts = Some(ts);
        self.started = true;
        self.packet_count = self.packet_count + 1;
        install
    }

    /// Reads the RTP timestamp from a packet's header (bytes 4 to 7). SRTP
    /// leaves the header in the clear, so this works on a protected packet
    /// too.
    pub fn timestamp(packet: &[u8]) -> (r: u32)
        requires
            packet@.len() >= RTP_HEADER_LEN,
        ensures
            r == crate::transport::rtp::header_timestamp(packet@),
    {
        read_be32(packet, 4)
    }

    /// Advances to the generation of `packet`, which is about to be encrypted
    /// or decrypted. Where it begins a new generation, returns the key and
    /// salt to install in the cipher first.
    pub fn rekey_for(&mut self, packet: &[u8]) -> (r: Option<KeySalt>)
        requires
            packet@.len() >= RTP_HEADER_LEN,
            old(self).wf(),
            old(self)@.takes(crate::transport::rtp::header_timestamp(packet@)),
        ensures
            final(self).wf(),
            final(self)@ == after_packet(
                old(self)@,
                crate::transport::rtp::header_timestamp(packet@),
            ),
            r is Some == begins_generation(
                old(self)@,
                crate::transport::rtp::header_timestamp(packet@),
            ),
            r matches Some(key_salt) ==> key_salt@ == final(self)@.key_salt,
    {
        self.advance_for(Self::timestamp(packet))
    }
}

/// Law: where keys change. The first packet of a stream never changes the key.
/// After that one key serves the epoch, each packet takes its own, a new timestamp
/// takes a new one, or every `n`-th packet does.
pub proof fn law_keys_change_at_their_boundaries(
    start: RekeyingState,
    timestamps: Seq<u32>,
    ts: u32,
    n: u32,
)
    requires
        start.packet_count == 0,
        n != 0,
    ensures
        ({
            let s = after_packets(start, timestamps);
            let changes = begins_generation(s, ts);
            &&& s.granularity == start.granularity
            &&& s.packet_count == timestamps.len()
            &&& timestamps.len() == 0 ==> !changes
            &&& timestamps.len() > 0 ==> {
                &&& start.granularity is EpochOnly ==> !changes
                &&& start.granularity is Packet ==> changes
                &&& start.granularity is Frame ==> (changes <==> timestamps[timestamps.len() - 1]
                    != ts)
                &&& start.granularity == Granularity::EveryN(n) ==> (changes <==> timestamps.len()
                    % (n as nat) == 0)
            }
        }),
    decreases timestamps.len(),
{
    if timestamps.len() > 0 {
        law_keys_change_at_their_boundaries(
            start,
            timestamps.drop_last(),
            timestamps.last(),
            n,
        );
    }
}

/// Law: a key change takes the next generation's key and no other. Without one the
/// key, the generation and the chain stay.
pub proof fn law_key_change_is_one_step(s: RekeyingState, ts: u32)
    ensures
        ({
            let after = after_packet(s, ts);
            &&& after.ssrc == s.ssrc
            &&& begins_generation(s, ts) ==> {
                &&& after.generation == s.generation + 1
                &&& after.key_salt == crate::keying::ratchet::key_salt_after(s.secret, 0)
                &&& after.secret == crate::keying::ratchet::secret_after(s.secret, 1)
            }
            &&& !begins_generation(s, ts) ==> {
                &&& after.generation == s.generation
                &&& after.key_salt == s.key_salt
                &&& after.secret == s.secret
            }
        }),
{
    reveal_with_fuel(crate::keying::ratchet::secret_after, 2);
}

} // verus!
