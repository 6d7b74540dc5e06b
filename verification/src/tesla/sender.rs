//! The TESLA sender: authenticates each outgoing packet.
//!
//! Each packet gets an extension with three things: the interval that it
//! belongs to (from its send time), a MAC under that interval's still-secret
//! key, and the disclosure of an old key whose secrecy has expired.
//!
//! The sender owns the whole key chain, built from its own private randomness.
//! Only the starting point `K_0` leaves it directly, in the signed commitment;
//! every other key leaves through the scheduled disclosures.

use vstd::prelude::*;

use crate::tesla::append_extension;
use crate::tesla::chain::{ChainKey, TeslaChain};
use crate::tesla::mac::{PreparedMac, TeslaMacAlg};
use crate::tesla::schedule::TeslaSchedule;

verus! {

/// What a [`TeslaSender`] knows: its schedule, its MAC algorithm and its chain.
pub struct SenderState {
    pub params: TeslaSchedule,
    pub alg: TeslaMacAlg,
    pub keys: Seq<ChainKey>,
}

impl SenderState {
    /// The chain reaches to the schedule's last interval.
    pub open spec fn chain_fits(self) -> bool {
        &&& crate::tesla::chain::is_chain(self.keys)
        &&& self.keys.len() == self.params.n_chain + 1
    }

    /// Whether a packet can be sent at `send_ns`: the stream has started and
    /// the chain is not exhausted.
    pub open spec fn sends_at(self, send_ns: u64) -> bool {
        &&& self.params.t_int_ns > 0
        &&& send_ns >= self.params.t0_ns
        &&& self.params.interval_at(send_ns as int) <= self.params.n_chain
    }

    /// The interval of a packet sent at `send_ns`.
    pub open spec fn interval(self, send_ns: u64) -> u32 {
        self.params.interval_at(send_ns as int) as u32
    }

    /// What is appended to a packet at position `ext_index`, sent at
    /// `send_ns`: its interval, the key from `d` intervals ago, and its tag
    /// under its own interval's key.
    pub open spec fn extension_for(self, packet: Seq<u8>, ext_index: u64, send_ns: u64) -> Seq<u8> {
        let i = self.interval(send_ns);
        crate::tesla::extension_bytes(
            i,
            self.keys[self.params.disclosed_at(i as int)]@,
            crate::tesla::mac::packet_tag(self.alg, self.keys[i as int]@, ext_index, packet),
        )
    }
}

/// The sender's TESLA state for one stream.
pub struct TeslaSender {
    params: TeslaSchedule,
    chain: TeslaChain,
    alg: TeslaMacAlg,
    /// The interval whose MAC is prepared.
    current_interval: u32,
    prepared: PreparedMac,
}

impl View for TeslaSender {
    type V = SenderState;

    closed spec fn view(&self) -> SenderState {
        SenderState { params: self.params, alg: self.alg, keys: self.chain@ }
    }
}

impl TeslaSender {
    /// The chain fits the schedule, and the prepared MAC is that of the
    /// current interval.
    pub closed spec fn wf(&self) -> bool {
        &&& self@.chain_fits()
        &&& 1 <= self.current_interval <= self.params.n_chain
        &&& self.prepared.wf()
        &&& self.prepared.alg() == self.alg
        &&& self.prepared.key() == crate::tesla::chain::mac_key_of(
            self.chain@[self.current_interval as int]@,
            self.alg.key_len(),
        )
    }

    /// Creates the sender: builds a fresh private chain sized to the schedule
    /// and prepares interval 1's MAC.
    pub fn new(params: TeslaSchedule, alg: TeslaMacAlg) -> (r: Self)
        requires
            1 <= params.n_chain < usize::MAX,
        ensures
            r.wf(),
            r@.params == params,
            r@.alg == alg,
            r@.chain_fits(),
    {
        let chain = TeslaChain::generate(params.n_chain);
        let prepared = alg.prepare(chain.key(1));
        TeslaSender { params, chain, alg, current_interval: 1, prepared }
    }

    /// The public starting point `K_0`, for the receiver's commitment.
    pub fn anchor(&self) -> (r: &ChainKey)
        requires
            self.wf(),
        ensures
            *r == self@.keys[0],
    {
        self.chain.anchor()
    }

    /// Authenticates one protected packet in place: appends the extension.
    /// `ext_index` is the packet's full index, `send_ns` its send time.
    pub fn authenticate(&mut self, buf: &mut Vec<u8>, ext_index: u64, send_ns: u64)
        requires
            old(self).wf(),
            old(self)@.sends_at(send_ns),
            old(self)@.alg.takes(old(buf)@.len()),
        ensures
            final(self).wf(),
            final(self)@ == old(self)@,
            final(buf)@ == old(buf)@ + old(self)@.extension_for(old(buf)@, ext_index, send_ns),
    {
        let interval: u32 = self.params.interval_of(send_ns);
        if interval != self.current_interval {
            self.prepared = self.alg.prepare(self.chain.key(interval));
            self.current_interval = interval;
        }
        let mac = self.prepared.tag(ext_index, buf.as_slice());
        let disclosed = self.chain.key(self.params.disclosed_index(interval));
        append_extension(buf, interval, disclosed, &mac);
    }
}

/// Law: a packet never discloses its own interval's key, nor a later one: what
/// it discloses is older by the full delay, or the public anchor.
pub proof fn law_packet_discloses_only_old_keys(params: TeslaSchedule, interval: u32)
    requires
        params.d >= 1,
        interval >= 1,
    ensures
        params.disclosed_at(interval as int) < interval,
        params.disclosed_at(interval as int) == 0 || params.disclosed_at(interval as int) + params.d
            == interval,
{
}

/// Law: the receiver can verify what the sender sent. Let a receiver trust
/// some key of the sender's chain below interval `i`, and let the sender send
/// a packet in interval `i` and a later one in interval `j`, far enough on that
/// it discloses key `i` or a later one. Then that disclosure proves genuine,
/// key `i` is among the keys it brings, and the tag recomputed under it is the
/// one that the first packet carries.
pub proof fn law_receiver_can_verify_sender(
    sender: SenderState,
    trust: crate::tesla::chain::Trust,
    packet: Seq<u8>,
    ext_index: u64,
    send_ns: u64,
    later: Seq<u8>,
    later_index: u64,
    later_ns: u64,
)
    requires
        sender.chain_fits(),
        sender.sends_at(send_ns),
        sender.sends_at(later_ns),
        packet.len() > 0,
        later.len() > 0,
        sender.keys.len() == trust.n_chain + 1,
        trust.key == sender.keys[trust.index as int]@,
        trust.index < sender.interval(send_ns) <= sender.params.disclosed_at(
            sender.interval(later_ns) as int,
        ),
        sender.params.disclosed_at(sender.interval(later_ns) as int) - trust.index <= trust.g_max,
    ensures
        ({
            let first = packet + sender.extension_for(packet, ext_index, send_ns);
            let second = later + sender.extension_for(later, later_index, later_ns);
            let i = crate::tesla::extension_interval(first);
            let index = sender.params.disclosed_at(
                crate::tesla::extension_interval(second) as int,
            ) as u32;
            let disclosed = crate::tesla::extension_key(second);
            let brought = crate::tesla::chain::recovered_keys(disclosed, trust.index, index);
            &&& trust.proves(disclosed, index)
            &&& 0 <= i - trust.index - 1 < brought.len()
            &&& brought[i - trust.index - 1].0 == i
            &&& crate::tesla::mac::packet_tag(
                sender.alg,
                brought[i - trust.index - 1].1,
                ext_index,
                crate::tesla::extended_packet(first),
            ) == crate::tesla::extension_mac(first)
        }),
{
    let i = sender.interval(send_ns);
    let j = sender.interval(later_ns);
    crate::tesla::schedule::lemma_interval_at_monotone(
        sender.params,
        send_ns as int,
        send_ns as int,
    );
    crate::tesla::schedule::lemma_interval_at_monotone(
        sender.params,
        later_ns as int,
        later_ns as int,
    );
    let index = sender.params.disclosed_at(j as int) as u32;
    crate::tesla::law_extension_roundtrip(
        packet,
        i,
        sender.keys[sender.params.disclosed_at(i as int)]@,
        crate::tesla::mac::packet_tag(sender.alg, sender.keys[i as int]@, ext_index, packet),
    );
    crate::tesla::law_extension_roundtrip(
        later,
        j,
        sender.keys[index as int]@,
        crate::tesla::mac::packet_tag(sender.alg, sender.keys[j as int]@, later_index, later),
    );
    crate::tesla::chain::law_genuine_key_is_accepted(trust, sender.keys, index);
}

/// Law: what a packet carries behind it. The interval is the time slot in which it
/// is sent, the key is the one of `d` intervals before or the public anchor, and
/// the MAC is the tag of this very packet under its own interval's key.
pub proof fn law_extension_says_when_and_who(
    s: SenderState,
    packet: Seq<u8>,
    ext_index: u64,
    send_ns: u64,
)
    requires
        s.chain_fits(),
        s.sends_at(send_ns),
    ensures
        ({
            let ext = s.extension_for(packet, ext_index, send_ns);
            let i = ext[0] * 0x100_0000 + ext[1] * 0x1_0000 + ext[2] * 0x100 + ext[3];
            &&& ext.len() == 34
            &&& 1 <= i <= s.params.n_chain
            &&& (i - 1) * s.params.t_int_ns <= send_ns - s.params.t0_ns < i * s.params.t_int_ns
            &&& ext.subrange(4, 24) == s.keys[if i >= s.params.d { i - s.params.d } else { 0 }]@
            &&& ext.subrange(24, 34) == crate::tesla::mac::packet_tag(
                s.alg,
                s.keys[i]@,
                ext_index,
                packet,
            )
        }),
{
    let i = s.params.interval_at(send_ns as int);
    crate::tesla::schedule::lemma_interval_at_monotone(s.params, send_ns as int, send_ns as int);
    crate::tesla::schedule::law_interval_is_a_time_slot(s.params, send_ns as int, i);
    crate::bytes::law_big_endian_bytes_spell_the_number(0, i as u32, 0);
    let ext = s.extension_for(packet, ext_index, send_ns);
    let key = s.keys[s.params.disclosed_at(i)]@;
    assert(ext.subrange(4, 24) =~= key);
    assert(ext.subrange(24, 34) =~= crate::tesla::mac::packet_tag(
        s.alg,
        s.keys[i]@,
        ext_index,
        packet,
    ));
}

} // verus!
