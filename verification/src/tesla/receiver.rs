//! The TESLA receiver: decides per packet whether it can still be trusted, and
//! verifies it once its key goes public.
//!
//! For each arriving packet, in order:
//!
//! 1. Strip the TESLA extension off the datagram.
//! 2. The accept test: could this packet's key already be public? If so, the
//!    packet proves nothing any more and is dropped unverified.
//! 3. Keep a copy of the packet: its MAC is checked against it later, and the
//!    SRTP decryption overwrites it.
//! 4. SRTP decryption. The plaintext is handed out at once; the verdict on its
//!    sender follows when the key arrives.
//! 5. Check the disclosed key that the packet carried, and verify the MAC of
//!    every packet that was waiting for it.
//!
//! A delivered packet waits in a drawer: the list of packets of one interval
//! whose key is still secret. When the key arrives and checks out, the
//! drawer's packets are settled: each is declared verified or forged.
//!
//! Decryption is done by an SRTP session outside this library, between
//! [`TeslaReceiver::begin_arrival`] and [`TeslaReceiver::finish_arrival`].

use std::collections::BTreeMap;

use openmls_rust_crypto::RustCrypto;
use vstd::prelude::*;

use crate::bytes::{read_be16, same_bytes};
use crate::receiver::index_recovery::IndexRecovery;
use crate::receiver::{OpenStep, ReceiverKeyManager, RecvDrop, RecvStats, SrtpOutcome};
use crate::tesla::chain::{ChainKey, ChainVerifier, Disclosure};
use crate::tesla::commitment::TeslaCommitment;
use crate::tesla::mac::{TeslaMacAlg, TESLA_MAC_LEN};
use crate::tesla::schedule::{IntervalCheck, TeslaSchedule};
use crate::tesla::split_extension;
use crate::transport::rtp::RTP_HEADER_LEN;

verus! {

/// Why a packet was dropped instead of delivered.
#[derive(Debug, Clone, Copy, PartialEq, Eq, Structural)]
pub enum TeslaDrop {
    /// Too short to carry a TESLA extension or an RTP header.
    Malformed,
    /// Failed the accept test: its key may already be public.
    UnsafeLate,
    /// Carried a disclosed key that does not check out against the chain.
    BadDisclosure,
    /// Rejected by the SRTP layer (outer tag, replay, keying).
    Srtp(RecvDrop),
}

/// Why a commitment was not accepted.
#[derive(Debug, Clone, Copy, PartialEq, Eq, Structural)]
pub enum CommitmentRejected {
    /// The signature does not check out under the sender's key.
    BadSignature,
    /// The schedule cannot be run: an empty interval, a disclosure delay below
    /// two, an empty chain, or a zero cap on hash work.
    BadSchedule,
}

/// Counters and measurements of one receiver run.
#[derive(Debug)]
pub struct TeslaStats {
    /// Packets decrypted and handed out (their verdict pending at first).
    pub delivered: u64,
    /// Delivered packets whose MAC later verified.
    pub verified: u64,
    /// Delivered packets whose MAC later failed.
    pub forged: u64,
    /// Drops per cause.
    pub drops_malformed: u64,
    pub drops_unsafe: u64,
    pub drops_bad_disclosure: u64,
    pub drops_srtp: u64,
    /// Most packets that ever waited in the drawers at once.
    pub peak_pending: u64,
    /// Per verified packet: stream time from its arrival to its verdict.
    pub latencies_ns: Vec<u64>,
}

/// What a [`TeslaStats`] says.
#[verifier::ext_equal]
pub struct TeslaCounts {
    pub delivered: u64,
    pub verified: u64,
    pub forged: u64,
    pub drops_malformed: u64,
    pub drops_unsafe: u64,
    pub drops_bad_disclosure: u64,
    pub drops_srtp: u64,
    pub peak_pending: u64,
    pub latencies_ns: Seq<u64>,
}

impl View for TeslaStats {
    type V = TeslaCounts;

    open spec fn view(&self) -> TeslaCounts {
        TeslaCounts {
            delivered: self.delivered,
            verified: self.verified,
            forged: self.forged,
            drops_malformed: self.drops_malformed,
            drops_unsafe: self.drops_unsafe,
            drops_bad_disclosure: self.drops_bad_disclosure,
            drops_srtp: self.drops_srtp,
            peak_pending: self.peak_pending,
            latencies_ns: self.latencies_ns@,
        }
    }
}

/// All counters at zero.
pub open spec fn no_counts() -> TeslaCounts {
    TeslaCounts {
        delivered: 0,
        verified: 0,
        forged: 0,
        drops_malformed: 0,
        drops_unsafe: 0,
        drops_bad_disclosure: 0,
        drops_srtp: 0,
        peak_pending: 0,
        latencies_ns: Seq::empty(),
    }
}

impl Default for TeslaStats {
    fn default() -> (r: Self)
        ensures
            r@ == no_counts(),
            r@.delivered == 0 && r@.verified == 0 && r@.forged == 0,
            r@.drops_malformed == 0 && r@.drops_unsafe == 0 && r@.drops_srtp == 0,
            r@.drops_bad_disclosure == 0 && r@.peak_pending == 0,
            r@.latencies_ns.len() == 0,
    {
        TeslaStats {
            delivered: 0,
            verified: 0,
            forged: 0,
            drops_malformed: 0,
            drops_unsafe: 0,
            drops_bad_disclosure: 0,
            drops_srtp: 0,
            peak_pending: 0,
            latencies_ns: Vec::new(),
        }
    }
}

/// One waiting packet: everything needed to verify it once its key arrives.
#[verifier::ext_equal]
pub struct Waiting {
    /// The packet's full index.
    pub ext_index: u64,
    /// When it arrived.
    pub arrival_ns: u64,
    /// The MAC that it carried.
    pub mac: Seq<u8>,
    /// The bytes that the MAC covers.
    pub covered: Seq<u8>,
}

/// A packet that is with the SRTP session.
#[verifier::ext_equal]
pub struct Arrival {
    /// The interval that it claims.
    pub interval: u32,
    /// The key that it discloses.
    pub disclosed: Seq<u8>,
    pub waiting: Waiting,
}

/// What a [`TeslaReceiver`] knows.
#[verifier::ext_equal]
pub struct TeslaState {
    pub params: TeslaSchedule,
    pub alg: TeslaMacAlg,
    /// The newest proven-genuine key.
    pub trust: crate::tesla::chain::Trust,
    /// The SRTP layer.
    pub srtp: crate::receiver::ReceiverState,
    /// Highest extended index among authenticated packets.
    pub highest: Option<u64>,
    /// The waiting packets by interval.
    pub drawers: Map<u32, Seq<Waiting>>,
    pub stats: TeslaCounts,
    /// The packet that is with the SRTP session.
    pub arriving: Option<Arrival>,
}

/// The packets that wait for an interval's key.
pub open spec fn drawer_at(drawers: Map<u32, Seq<Waiting>>, interval: u32) -> Seq<Waiting> {
    if drawers.contains_key(interval) {
        drawers[interval]
    } else {
        Seq::empty()
    }
}

/// The packets that wait for a key of an interval below `bound`.
pub open spec fn waiting_below(drawers: Map<u32, Seq<Waiting>>, bound: nat) -> nat
    decreases bound,
{
    if bound == 0 {
        0
    } else {
        waiting_below(drawers, (bound - 1) as nat) + drawer_at(drawers, (bound - 1) as u32).len()
    }
}

/// The packets that wait for their key.
pub open spec fn waiting(drawers: Map<u32, Seq<Waiting>>) -> nat {
    waiting_below(drawers, 0x1_0000_0000)
}

/// When one drawer changes, the count changes by as much.
proof fn lemma_waiting_below_changes(
    a: Map<u32, Seq<Waiting>>,
    b: Map<u32, Seq<Waiting>>,
    interval: u32,
    bound: nat,
)
    requires
        bound <= 0x1_0000_0000,
        forall|i: u32| i != interval ==> drawer_at(a, i) == #[trigger] drawer_at(b, i),
    ensures
        waiting_below(b, bound) - waiting_below(a, bound) == if interval < bound {
            drawer_at(b, interval).len() - drawer_at(a, interval).len()
        } else {
            0
        },
    decreases bound,
{
    if bound > 0 {
        lemma_waiting_below_changes(a, b, interval, (bound - 1) as nat);
        assert(bound - 1 != interval ==> drawer_at(a, (bound - 1) as u32) == drawer_at(
            b,
            (bound - 1) as u32,
        ));
    }
}

/// With no drawer, nothing waits.
proof fn lemma_nothing_waits(bound: nat)
    ensures
        waiting_below(Map::<u32, Seq<Waiting>>::empty(), bound) == 0,
    decreases bound,
{
    if bound > 0 {
        lemma_nothing_waits((bound - 1) as nat);
    }
}

/// Emptying a drawer takes its packets off the count.
proof fn lemma_waiting_remove(drawers: Map<u32, Seq<Waiting>>, interval: u32)
    ensures
        waiting(drawers.remove(interval)) + drawer_at(drawers, interval).len() == waiting(drawers),
{
    let after = drawers.remove(interval);
    assert forall|i: u32| i != interval implies drawer_at(drawers, i) == #[trigger] drawer_at(
        after,
        i,
    ) by {}
    lemma_waiting_below_changes(drawers, after, interval, 0x1_0000_0000);
}

/// Adding a packet to a drawer adds one to the count.
proof fn lemma_waiting_push(drawers: Map<u32, Seq<Waiting>>, interval: u32, w: Waiting)
    ensures
        waiting(drawers.insert(interval, drawer_at(drawers, interval).push(w))) == waiting(drawers)
            + 1,
{
    let after = drawers.insert(interval, drawer_at(drawers, interval).push(w));
    assert forall|i: u32| i != interval implies drawer_at(drawers, i) == #[trigger] drawer_at(
        after,
        i,
    ) by {}
    lemma_waiting_below_changes(drawers, after, interval, 0x1_0000_0000);
}

/// Whether a waiting packet's MAC is the one that its interval's key gives.
pub open spec fn genuine(alg: TeslaMacAlg, key: Seq<u8>, w: Waiting) -> bool {
    crate::tesla::mac::packet_tag(alg, key, w.ext_index, w.covered) == w.mac
}

/// How long each genuine packet of a drawer waited for its verdict.
pub open spec fn genuine_latencies(
    alg: TeslaMacAlg,
    key: Seq<u8>,
    entries: Seq<Waiting>,
    now_ns: u64,
) -> Seq<u64>
    decreases entries.len(),
{
    if entries.len() == 0 {
        Seq::empty()
    } else {
        let earlier = genuine_latencies(alg, key, entries.drop_last(), now_ns);
        if genuine(alg, key, entries.last()) {
            earlier.push((now_ns - entries.last().arrival_ns) as u64)
        } else {
            earlier
        }
    }
}

impl TeslaState {
    /// The state after the packets of one interval got their verdict.
    pub open spec fn settled(self, interval: u32, key: Seq<u8>, now_ns: u64) -> TeslaState {
        let entries = drawer_at(self.drawers, interval);
        let latencies = genuine_latencies(self.alg, key, entries, now_ns);
        TeslaState {
            drawers: self.drawers.remove(interval),
            stats: TeslaCounts {
                verified: (self.stats.verified + latencies.len()) as u64,
                forged: (self.stats.forged + entries.len() - latencies.len()) as u64,
                latencies_ns: self.stats.latencies_ns + latencies,
                ..self.stats
            },
            ..self
        }
    }

    /// The state after the packets of several intervals got their verdict.
    pub open spec fn settled_all(self, keys: Seq<(u32, Seq<u8>)>, now_ns: u64) -> TeslaState
        decreases keys.len(),
    {
        if keys.len() == 0 {
            self
        } else {
            self.settled_all(keys.drop_last(), now_ns).settled(
                keys.last().0,
                keys.last().1,
                now_ns,
            )
        }
    }

    /// Whether the clock has not fallen behind a genuine packet that waits for
    /// this key.
    pub open spec fn clock_covers(self, interval: u32, key: Seq<u8>, now_ns: u64) -> bool {
        forall|i: int|
            0 <= i < drawer_at(self.drawers, interval).len() && genuine(
                self.alg,
                key,
                #[trigger] drawer_at(self.drawers, interval)[i],
            ) ==> drawer_at(self.drawers, interval)[i].arrival_ns <= now_ns
    }
}

/// Law: a verdict on waiting packets changes the drawers and the three
/// counters of verdicts, and nothing else.
pub proof fn law_verdicts_leave_the_rest(s: TeslaState, keys: Seq<(u32, Seq<u8>)>, now_ns: u64)
    ensures
        ({
            let after = s.settled_all(keys, now_ns);
            after == (TeslaState {
                drawers: after.drawers,
                stats: TeslaCounts {
                    verified: after.stats.verified,
                    forged: after.stats.forged,
                    latencies_ns: after.stats.latencies_ns,
                    ..s.stats
                },
                ..s
            })
        }),
    decreases keys.len(),
{
    if keys.len() > 0 {
        law_verdicts_leave_the_rest(s, keys.drop_last(), now_ns);
    }
}

/// A receiver that has seen no packet and trusts only the anchor.
pub open spec fn fresh_receiver(
    params: TeslaSchedule,
    anchor: Seq<u8>,
    alg: TeslaMacAlg,
    srtp: crate::receiver::ReceiverState,
) -> TeslaState {
    TeslaState {
        params,
        alg,
        trust: crate::tesla::chain::Trust {
            n_chain: params.n_chain,
            g_max: params.g_max,
            index: 0,
            key: anchor,
        },
        srtp,
        highest: None,
        drawers: Map::empty(),
        stats: no_counts(),
        arriving: None,
    }
}

/// Whether a datagram is too short to hold an extension behind an RTP header.
pub open spec fn too_short(data: Seq<u8>) -> bool {
    data.len() <= crate::tesla::TESLA_EXT_LEN || crate::tesla::extended_packet(data).len()
        < RTP_HEADER_LEN
}

/// A datagram's packet on its way through the SRTP session.
pub open spec fn arrival_of(s: TeslaState, data: Seq<u8>, arrival_ns: u64) -> Arrival {
    let packet = crate::tesla::extended_packet(data);
    Arrival {
        interval: crate::tesla::extension_interval(data),
        disclosed: crate::tesla::extension_key(data),
        waiting: Waiting {
            ext_index: crate::receiver::index_recovery::extended_index(
                s.highest,
                crate::transport::rtp::header_seq(packet),
            ),
            arrival_ns,
            mac: crate::tesla::extension_mac(data),
            covered: packet,
        },
    }
}

impl TeslaState {
    /// What a datagram needs to be taken in: the accept test divides by no
    /// zero and its interval number fits 64 bits, the SRTP layer and the MAC
    /// take the packet, and the counters have room.
    pub open spec fn takes(self, data: Seq<u8>, arrival_ns: u64) -> bool {
        let packet = crate::tesla::extended_packet(data);
        &&& self.stats.drops_malformed < u64::MAX
        &&& self.stats.drops_unsafe < u64::MAX
        &&& self.stats.drops_srtp < u64::MAX
        &&& !too_short(data) ==> {
            &&& self.params.t_int_ns > 0
            &&& self.params.latest_interval(arrival_ns) <= u64::MAX
            &&& self.params.is_safe(arrival_ns, crate::tesla::extension_interval(data)) ==> {
                &&& self.srtp.takes(packet)
                &&& self.alg.takes(packet.len())
            }
        }
    }
}

/// The state after a datagram was taken in: a drop is counted, or its packet
/// is with the SRTP session.
pub open spec fn after_intake(s: TeslaState, data: Seq<u8>, arrival_ns: u64) -> TeslaState {
    let packet = crate::tesla::extended_packet(data);
    let st = s.stats;
    if too_short(data) {
        TeslaState {
            stats: TeslaCounts { drops_malformed: (st.drops_malformed + 1) as u64, ..st },
            ..s
        }
    } else if !s.params.is_safe(arrival_ns, crate::tesla::extension_interval(data)) {
        TeslaState {
            stats: TeslaCounts { drops_unsafe: (st.drops_unsafe + 1) as u64, ..st },
            ..s
        }
    } else {
        let srtp = crate::receiver::after_begin(s.srtp, packet);
        if srtp.in_flight is None {
            TeslaState {
                srtp,
                stats: TeslaCounts { drops_srtp: (st.drops_srtp + 1) as u64, ..st },
                ..s
            }
        } else {
            TeslaState { srtp, arriving: Some(arrival_of(s, data, arrival_ns)), ..s }
        }
    }
}

/// What the receiver answers when a datagram is taken in.
pub open spec fn intake_answer(
    s: TeslaState,
    data: Seq<u8>,
    arrival_ns: u64,
    r: Result<OpenStep, TeslaDrop>,
) -> bool {
    let packet = crate::tesla::extended_packet(data);
    if too_short(data) {
        r == Err::<OpenStep, TeslaDrop>(TeslaDrop::Malformed)
    } else if !s.params.is_safe(arrival_ns, crate::tesla::extension_interval(data)) {
        r == Err::<OpenStep, TeslaDrop>(TeslaDrop::UnsafeLate)
    } else {
        match r {
            Ok(step) => crate::receiver::begin_answer(s.srtp, packet, Ok(step)),
            Err(TeslaDrop::Srtp(drop)) => crate::receiver::begin_answer(
                s.srtp,
                packet,
                Err(drop),
            ),
            Err(_) => false,
        }
    }
}

/// The state after a packet was put into its interval's drawer.
pub open spec fn delivered(s: TeslaState, a: Arrival) -> TeslaState {
    let drawers = s.drawers.insert(
        a.interval,
        drawer_at(s.drawers, a.interval).push(a.waiting),
    );
    TeslaState {
        drawers,
        stats: TeslaCounts {
            delivered: (s.stats.delivered + 1) as u64,
            peak_pending: if waiting(drawers) > s.stats.peak_pending {
                waiting(drawers) as u64
            } else {
                s.stats.peak_pending
            },
            ..s.stats
        },
        ..s
    }
}

/// The chain index that an arriving packet's disclosed key claims.
pub open spec fn claimed_index(s: TeslaState) -> u32 {
    s.params.disclosed_at(s.arriving->0.interval as int) as u32
}

/// The keys that the arriving packet's disclosure brings, where it proves
/// genuine.
pub open spec fn brought_keys(s: TeslaState) -> Seq<(u32, Seq<u8>)> {
    crate::tesla::chain::recovered_keys(
        s.arriving->0.disclosed,
        s.trust.index,
        claimed_index(s),
    )
}

/// Whether the arriving packet's arrival lies no earlier than that of any
/// packet that its disclosure will verify.
pub open spec fn clock_runs_on(s: TeslaState) -> bool {
    s.trust.proves(s.arriving->0.disclosed, claimed_index(s)) ==> forall|n: int|
        0 <= n < brought_keys(s).len() ==> s.clock_covers(
            (#[trigger] brought_keys(s)[n]).0,
            brought_keys(s)[n].1,
            s.arriving->0.waiting.arrival_ns,
        )
}

/// The state once the SRTP session has authenticated the arriving packet,
/// before its disclosed key is acted on.
pub open spec fn authenticated(s: TeslaState) -> TeslaState {
    let a = s.arriving->0;
    TeslaState {
        srtp: crate::receiver::after_finish(s.srtp, SrtpOutcome::Authenticated),
        highest: Some(crate::receiver::index_recovery::raised(s.highest, a.waiting.ext_index)),
        trust: s.trust.after(a.disclosed, claimed_index(s)),
        arriving: None,
        ..s
    }
}

/// The state after the waiting packets whose keys the arriving packet brought
/// got their verdict.
pub open spec fn after_settling(s: TeslaState) -> TeslaState {
    let a = s.arriving->0;
    if s.trust.proves(a.disclosed, claimed_index(s)) {
        authenticated(s).settled_all(brought_keys(s), a.waiting.arrival_ns)
    } else {
        authenticated(s)
    }
}

/// Whether the arriving packet's disclosed key is acceptable: genuine, or old
/// news.
pub open spec fn disclosure_ok(s: TeslaState) -> bool {
    s.trust.proves(s.arriving->0.disclosed, claimed_index(s)) || claimed_index(s) <= s.trust.index
}

/// The state after the SRTP session's verdict on the arriving packet.
pub open spec fn after_verdict(s: TeslaState, outcome: SrtpOutcome) -> TeslaState {
    let st = s.stats;
    if outcome != SrtpOutcome::Authenticated {
        TeslaState {
            srtp: crate::receiver::after_finish(s.srtp, outcome),
            arriving: None,
            stats: TeslaCounts { drops_srtp: (st.drops_srtp + 1) as u64, ..st },
            ..s
        }
    } else if !disclosure_ok(s) {
        TeslaState {
            stats: TeslaCounts { drops_bad_disclosure: (st.drops_bad_disclosure + 1) as u64, ..st },
            ..authenticated(s)
        }
    } else {
        delivered(after_settling(s), s.arriving->0)
    }
}

/// What the receiver answers once the SRTP session has spoken: how many
/// waiting packets got their verdict, or why the packet is dropped.
pub open spec fn verdict_answer(
    s: TeslaState,
    outcome: SrtpOutcome,
    r: Result<usize, TeslaDrop>,
) -> bool {
    match outcome {
        SrtpOutcome::Replay => r == Err::<usize, TeslaDrop>(TeslaDrop::Srtp(RecvDrop::SrtpReplay)),
        SrtpOutcome::AuthFail => r == Err::<usize, TeslaDrop>(TeslaDrop::Srtp(RecvDrop::AuthFail)),
        SrtpOutcome::Authenticated => if disclosure_ok(s) {
            r matches Ok(n) && n == waiting(s.drawers) - waiting(after_settling(s).drawers)
        } else {
            r == Err::<usize, TeslaDrop>(TeslaDrop::BadDisclosure)
        },
    }
}

/// One waiting packet.
struct DrawerEntry {
    ext_index: u64,
    arrival_ns: u64,
    mac: [u8; TESLA_MAC_LEN],
    covered: Vec<u8>,
}

impl View for DrawerEntry {
    type V = Waiting;

    closed spec fn view(&self) -> Waiting {
        Waiting {
            ext_index: self.ext_index,
            arrival_ns: self.arrival_ns,
            mac: self.mac@,
            covered: self.covered@,
        }
    }
}

/// What the entries of a drawer say.
spec fn entries_view(entries: Seq<DrawerEntry>) -> Seq<Waiting> {
    entries.map_values(|e: DrawerEntry| e@)
}

/// What the drawers hold.
spec fn drawers_view(drawers: Map<u32, Vec<DrawerEntry>>) -> Map<u32, Seq<Waiting>> {
    drawers.map_values(|v: Vec<DrawerEntry>| entries_view(v@))
}

/// A packet that is with the SRTP session.
struct Arriving {
    interval: u32,
    disclosed: ChainKey,
    entry: DrawerEntry,
}

/// The TESLA receiver for one stream, wrapped around the SRTP receiver.
pub struct TeslaReceiver {
    params: TeslaSchedule,
    verifier: ChainVerifier,
    alg: TeslaMacAlg,
    inner: ReceiverKeyManager,
    recovery: IndexRecovery,
    /// The waiting packets, grouped by their interval.
    drawers: BTreeMap<u32, Vec<DrawerEntry>>,
    /// Packets currently waiting.
    pending: u64,
    stats: TeslaStats,
    /// The packet that is with the SRTP session.
    arriving: Option<Arriving>,
}

impl View for TeslaReceiver {
    type V = TeslaState;

    closed spec fn view(&self) -> TeslaState {
        TeslaState {
            params: self.params,
            alg: self.alg,
            trust: self.verifier@,
            srtp: self.inner@,
            highest: self.recovery@,
            drawers: drawers_view(self.drawers@),
            stats: self.stats@,
            arriving: match self.arriving {
                Some(a) => Some(
                    Arrival { interval: a.interval, disclosed: a.disclosed@, waiting: a.entry@ },
                ),
                None => None,
            },
        }
    }
}

impl TeslaReceiver {
    /// Every waiting packet can be tagged, and every delivered packet waits or
    /// has its verdict.
    pub closed spec fn wf(&self) -> bool {
        &&& self.inner.wf()
        &&& self.inner@.in_flight is Some == self.arriving is Some
        &&& self.pending == waiting(self@.drawers)
        &&& self.stats.delivered == self.stats.verified + self.stats.forged + self.pending
        &&& self.stats.latencies_ns@.len() == self.stats.verified
        &&& self.stats.peak_pending >= self.pending
        &&& forall|i: u32, n: int|
            0 <= n < drawer_at(self@.drawers, i).len() ==> self.alg.takes(
                (#[trigger] drawer_at(self@.drawers, i)[n]).covered.len(),
            )
        &&& self.arriving matches Some(a) ==> self.alg.takes(a.entry.covered@.len())
    }

    /// Creates the receiver. `anchor` is the sender's `K_0` from the signed
    /// commitment, `inner` is the SRTP receiver.
    pub fn new(
        params: TeslaSchedule,
        anchor: ChainKey,
        alg: TeslaMacAlg,
        inner: ReceiverKeyManager,
    ) -> (r: Self)
        requires
            inner.wf(),
            inner@.in_flight is None,
        ensures
            r.wf(),
            r@ == fresh_receiver(params, anchor@, alg, inner@),
            r@.params == params,
            r@.alg == alg,
            r@.srtp == inner@,
            r@.trust.n_chain == params.n_chain,
            r@.trust.g_max == params.g_max,
            r@.trust.index == 0,
            r@.trust.key == anchor@,
            r@.highest is None,
            r@.arriving is None,
    {
        let r = TeslaReceiver {
            params,
            verifier: ChainVerifier::new(anchor, params.n_chain, params.g_max),
            alg,
            inner,
            recovery: IndexRecovery::default(),
            drawers: BTreeMap::new(),
            pending: 0,
            stats: TeslaStats::default(),
            arriving: None,
        };
        proof {
            assert(drawers_view(r.drawers@) =~= Map::<u32, Seq<Waiting>>::empty());
            lemma_nothing_waits(0x1_0000_0000);
        }
        r
    }

    /// Starts a receiver from the sender's signed commitment: the anchor and
    /// the schedule are trusted only if the signature checks out under the
    /// sender's leaf key and the schedule is one that can be run.
    pub fn accept(
        commitment: &TeslaCommitment,
        signature: &[u8],
        sender_leaf_key: &[u8],
        crypto: &RustCrypto,
        d_t_ns: u64,
        g_max: u32,
        inner: ReceiverKeyManager,
    ) -> (r: Result<Self, CommitmentRejected>)
        requires
            inner.wf(),
            inner@.in_flight is None,
        ensures
            ({
                let signed = crate::tesla::commitment::checks_out(
                    commitment@,
                    signature@,
                    sender_leaf_key@,
                );
                let runs = commitment.schedulable() && g_max >= 1;
                match r {
                    Ok(receiver) => {
                        &&& signed && runs
                        &&& receiver.wf()
                        &&& receiver@ == fresh_receiver(
                            TeslaSchedule {
                                t0_ns: commitment.t0_ns,
                                t_int_ns: commitment.t_int_ns,
                                d: commitment.d,
                                n_chain: commitment.n_chain,
                                d_t_ns,
                                g_max,
                            },
                            commitment.anchor@,
                            commitment.mac_alg,
                            inner@,
                        )
                    },
                    Err(CommitmentRejected::BadSignature) => !signed,
                    Err(CommitmentRejected::BadSchedule) => signed && !runs,
                }
            }),
            ({
                let signed = crate::crypto::ed25519_accepts(
                    sender_leaf_key@,
                    crate::tesla::commitment::signed_bytes(commitment@),
                    signature@,
                );
                &&& r is Ok <==> signed && commitment.t_int_ns > 0 && commitment.d >= 2
                    && commitment.n_chain >= 1 && g_max >= 1
                &&& r is Err && r->Err_0 is BadSignature <==> !signed
            }),
            r matches Ok(receiver) ==> {
                &&& receiver@.params.t0_ns == commitment.t0_ns
                &&& receiver@.params.t_int_ns == commitment.t_int_ns
                &&& receiver@.params.d == commitment.d
                &&& receiver@.params.n_chain == commitment.n_chain
                &&& receiver@.params.d_t_ns == d_t_ns
                &&& receiver@.params.g_max == g_max
                &&& receiver@.alg == commitment.mac_alg
                &&& receiver@.trust.key == commitment.anchor@
                &&& receiver@.trust.index == 0
            },
    {
        if !commitment.verify(signature, sender_leaf_key, crypto) {
            return Err(CommitmentRejected::BadSignature);
        }
        if commitment.t_int_ns == 0 || commitment.d < 2 || commitment.n_chain == 0 || g_max == 0 {
            return Err(CommitmentRejected::BadSchedule);
        }
        let params = commitment.schedule(d_t_ns, g_max);
        Ok(Self::new(params, commitment.anchor, commitment.mac_alg, inner))
    }

    /// Everything the receiver did so far.
    pub fn stats(&self) -> (r: &TeslaStats)
        ensures
            r@ == self@.stats,
    {
        &self.stats
    }

    /// The SRTP layer's own counters.
    pub fn inner_stats(&self) -> (r: &RecvStats)
        ensures
            *r == self@.srtp.stats,
    {
        self.inner.stats()
    }

    /// Packets still waiting for their key. At the end of a run these are the
    /// packets of the last intervals, whose keys are never disclosed.
    pub fn unsettled(&self) -> (r: u64)
        requires
            self.wf(),
        ensures
            r == waiting(self@.drawers),
    {
        self.pending
    }

    /// Verifies every packet that waits for this interval's key: recomputes
    /// its MAC and compares. Returns how many packets got a verdict.
    fn settle_drawer(&mut self, interval: u32, key: &ChainKey, now_ns: u64) -> (r: usize)
        requires
            old(self).wf(),
            old(self)@.clock_covers(interval, key@, now_ns),
        ensures
            final(self).wf(),
            final(self)@ == old(self)@.settled(interval, key@, now_ns),
            r == drawer_at(old(self)@.drawers, interval).len(),
    {
        let ghost before = *self;
        let ghost waited = drawer_at(self@.drawers, interval);
        proof {
            lemma_waiting_remove(self@.drawers, interval);
        }
        let taken = self.drawers.remove(&interval);
        assert(drawers_view(self.drawers@) =~= before@.drawers.remove(interval));
        let entries = match taken {
            Some(entries) => entries,
            None => {
                assert(self@.drawers =~= before@.drawers);
                assert(self@ =~= before@.settled(interval, key@, now_ns));
                return 0;
            },
        };
        assert(entries_view(entries@) =~= waited);
        let prepared = self.alg.prepare(key);
        let mut i: usize = 0;
        while i < entries.len()
            invariant
                i <= entries@.len(),
                entries_view(entries@) == waited,
                prepared.wf(),
                prepared.alg() == self.alg,
                prepared.key() == crate::tesla::chain::mac_key_of(key@, self.alg.key_len()),
                forall|n: int| 0 <= n < waited.len() ==> self.alg.takes(
                    (#[trigger] waited[n]).covered.len(),
                ),
                forall|n: int|
                    0 <= n < waited.len() && genuine(self.alg, key@, #[trigger] waited[n])
                        ==> waited[n].arrival_ns <= now_ns,
                ({
                    let lat = genuine_latencies(self.alg, key@, waited.take(i as int), now_ns);
                    &&& lat.len() <= i
                    &&& self.stats.verified == before.stats.verified + lat.len()
                    &&& self.stats.forged == before.stats.forged + i - lat.len()
                    &&& self.stats.latencies_ns@ == before.stats.latencies_ns@ + lat
                }),
                self.pending + i == before.pending,
                waited.len() <= before.pending,
                before.stats.delivered == before.stats.verified + before.stats.forged
                    + before.pending,
                self.stats == (TeslaStats {
                    verified: self.stats.verified,
                    forged: self.stats.forged,
                    latencies_ns: self.stats.latencies_ns,
                    ..before.stats
                }),
                *self == (TeslaReceiver {
                    drawers: self.drawers,
                    stats: self.stats,
                    pending: self.pending,
                    ..before
                }),
                drawers_view(self.drawers@) == before@.drawers.remove(interval),
            decreases entries@.len() - i,
        {
            let entry = &entries[i];
            assert(entry@ == waited[i as int]);
            let tag = prepared.tag(entry.ext_index, entry.covered.as_slice());
            proof {
                assert(waited.take(i + 1).drop_last() =~= waited.take(i as int));
                assert(waited.take(i + 1).last() == waited[i as int]);
            }
            if same_bytes(tag.as_slice(), entry.mac.as_slice()) {
                assert(genuine(self.alg, key@, waited[i as int]));
                self.stats.verified = self.stats.verified + 1;
                self.stats.latencies_ns.push(now_ns - entry.arrival_ns);
            } else {
                self.stats.forged = self.stats.forged + 1;
            }
            self.pending = self.pending - 1;
            i += 1;
        }
        proof {
            assert(waited.take(i as int) =~= waited);
            assert(self@ =~= before@.settled(interval, key@, now_ns));
            assert forall|j: u32, n: int|
                0 <= n < drawer_at(self@.drawers, j).len() implies self.alg.takes(
                (#[trigger] drawer_at(self@.drawers, j)[n]).covered.len(),
            ) by {
                assert(drawer_at(before@.drawers, j)[n] == drawer_at(self@.drawers, j)[n]);
            }
        }
        entries.len()
    }

    /// Verifies every waiting packet whose key just arrived. Returns how many
    /// packets got a verdict.
    fn settle(&mut self, keys: &Vec<(u32, ChainKey)>, now_ns: u64) -> (r: usize)
        requires
            old(self).wf(),
            waiting(old(self)@.drawers) <= usize::MAX,
            forall|n: int|
                0 <= n < keys@.len() ==> old(self)@.clock_covers(
                    (#[trigger] keys@[n]).0,
                    keys@[n].1@,
                    now_ns,
                ),
        ensures
            final(self).wf(),
            final(self)@ == old(self)@.settled_all(
                crate::tesla::chain::key_list(keys@),
                now_ns,
            ),
            r == waiting(old(self)@.drawers) - waiting(final(self)@.drawers),
    {
        let ghost before = self@;
        let ghost list = crate::tesla::chain::key_list(keys@);
        let mut settled: usize = 0;
        let mut i: usize = 0;
        assert(list.take(0) =~= Seq::empty());
        while i < keys.len()
            invariant
                i <= keys@.len(),
                self.wf(),
                list == crate::tesla::chain::key_list(keys@),
                self@ == before.settled_all(list.take(i as int), now_ns),
                settled == waiting(before.drawers) - waiting(self@.drawers),
                waiting(before.drawers) <= usize::MAX,
                self@.alg == before.alg,
                forall|n: int|
                    0 <= n < keys@.len() ==> before.clock_covers(
                        (#[trigger] keys@[n]).0,
                        keys@[n].1@,
                        now_ns,
                    ),
                forall|j: u32|
                    #[trigger] drawer_at(self@.drawers, j) == drawer_at(before.drawers, j)
                        || drawer_at(self@.drawers, j) == Seq::<Waiting>::empty(),
            decreases keys@.len() - i,
        {
            let interval: u32 = keys[i].0;
            let ghost at = self@;
            proof {
                assert(list.take(i + 1).drop_last() =~= list.take(i as int));
                assert(list.take(i + 1).last() == (keys@[i as int].0, keys@[i as int].1@));
                lemma_waiting_remove(self@.drawers, interval);
                assert(before.clock_covers(keys@[i as int].0, keys@[i as int].1@, now_ns));
                assert(drawer_at(at.drawers, interval) == drawer_at(before.drawers, interval)
                    || drawer_at(at.drawers, interval) == Seq::<Waiting>::empty());
            }
            let n: usize = self.settle_drawer(interval, &keys[i].1, now_ns);
            settled += n;
            proof {
                assert forall|j: u32|
                    #[trigger] drawer_at(self@.drawers, j) == drawer_at(before.drawers, j)
                        || drawer_at(self@.drawers, j) == Seq::<Waiting>::empty() by {
                    assert(drawer_at(at.drawers, j) == drawer_at(before.drawers, j) || drawer_at(
                        at.drawers,
                        j,
                    ) == Seq::<Waiting>::empty());
                }
            }
            i += 1;
        }
        assert(list.take(i as int) =~= list);
        settled
    }

    /// Takes in one arriving datagram: strips the extension, runs the accept
    /// test and judges the packet. `Ok` says which key the SRTP session needs
    /// for the packet that is left in `buf`, and the session's verdict is then
    /// owed to [`TeslaReceiver::finish_arrival`]; `Err` says why the datagram
    /// is dropped.
    pub fn begin_arrival(&mut self, buf: &mut Vec<u8>, arrival_ns: u64) -> (r: Result<
        OpenStep,
        TeslaDrop,
    >)
        requires
            old(self).wf(),
            old(self)@.arriving is None,
            old(self)@.takes(old(buf)@, arrival_ns),
        ensures
            final(self).wf(),
            final(self)@ == after_intake(old(self)@, old(buf)@, arrival_ns),
            intake_answer(old(self)@, old(buf)@, arrival_ns, r),
            final(buf)@ == if old(buf)@.len() <= crate::tesla::TESLA_EXT_LEN {
                old(buf)@
            } else {
                crate::tesla::extended_packet(old(buf)@)
            },
    {
        let ghost before = self@;
        let (interval, disclosed, mac) = match split_extension(buf) {
            Some(ext) => ext,
            None => {
                self.stats.drops_malformed = self.stats.drops_malformed + 1;
                assert(self@ =~= after_intake(before, old(buf)@, arrival_ns));
                return Err(TeslaDrop::Malformed);
            },
        };
        if buf.len() < RTP_HEADER_LEN {
            self.stats.drops_malformed = self.stats.drops_malformed + 1;
            assert(self@ =~= after_intake(before, old(buf)@, arrival_ns));
            return Err(TeslaDrop::Malformed);
        }
        match self.params.accepts(arrival_ns, interval) {
            IntervalCheck::UnsafeLate => {
                self.stats.drops_unsafe = self.stats.drops_unsafe + 1;
                assert(self@ =~= after_intake(before, old(buf)@, arrival_ns));
                return Err(TeslaDrop::UnsafeLate);
            },
            IntervalCheck::Safe => {},
        }
        let seq: u16 = read_be16(buf.as_slice(), 2);
        let ext_index: u64 = self.recovery.recover(seq);
        // the bytes that the MAC covers: decryption overwrites them
        let covered = vstd::slice::slice_to_vec(buf.as_slice());
        match self.inner.begin_unprotect(buf.as_slice()) {
            Ok(step) => {
                let entry = DrawerEntry { ext_index, arrival_ns, mac, covered };
                self.arriving = Some(Arriving { interval, disclosed, entry });
                assert(self@ =~= after_intake(before, old(buf)@, arrival_ns));
                Ok(step)
            },
            Err(drop) => {
                self.stats.drops_srtp = self.stats.drops_srtp + 1;
                assert(self@ =~= after_intake(before, old(buf)@, arrival_ns));
                Err(TeslaDrop::Srtp(drop))
            },
        }
    }

    /// Puts a delivered packet into its interval's drawer.
    fn file(&mut self, interval: u32, entry: DrawerEntry)
        requires
            old(self).wf(),
            old(self).pending < u64::MAX,
            old(self).stats.delivered < u64::MAX,
            old(self).alg.takes(entry.covered@.len()),
        ensures
            final(self).wf(),
            final(self)@ == delivered(
                old(self)@,
                (Arrival { interval, disclosed: Seq::empty(), waiting: entry@ }),
            ),
    {
        let ghost before = self@;
        let ghost w = entry@;
        proof {
            lemma_waiting_push(before.drawers, interval, w);
        }
        let mut drawer = match self.drawers.remove(&interval) {
            Some(drawer) => drawer,
            None => Vec::new(),
        };
        assert(entries_view(drawer@) =~= drawer_at(before.drawers, interval));
        drawer.push(entry);
        assert(entries_view(drawer@) =~= drawer_at(before.drawers, interval).push(w));
        self.drawers.insert(interval, drawer);
        assert(drawers_view(self.drawers@) =~= before.drawers.insert(
            interval,
            drawer_at(before.drawers, interval).push(w),
        ));
        self.pending = self.pending + 1;
        if self.pending > self.stats.peak_pending {
            self.stats.peak_pending = self.pending;
        }
        self.stats.delivered = self.stats.delivered + 1;
        proof {
            assert forall|j: u32, n: int|
                0 <= n < drawer_at(self@.drawers, j).len() implies self.alg.takes(
                (#[trigger] drawer_at(self@.drawers, j)[n]).covered.len(),
            ) by {
                if j == interval && n == drawer_at(before.drawers, j).len() {
                    assert(drawer_at(self@.drawers, j)[n] == w);
                } else {
                    assert(drawer_at(before.drawers, j)[n] == drawer_at(self@.drawers, j)[n]);
                }
            }
        }
    }

    /// Takes the SRTP session's verdict on the packet that
    /// [`TeslaReceiver::begin_arrival`] let through. An authenticated packet's
    /// disclosed key is checked and acted on, and the packet joins its
    /// interval's drawer; the answer says how many waiting packets got their
    /// verdict. A packet with a key that does not check out is dropped whole.
    pub fn finish_arrival(&mut self, outcome: SrtpOutcome) -> (r: Result<usize, TeslaDrop>)
        requires
            old(self).wf(),
            old(self)@.arriving is Some,
            old(self)@.stats.delivered < u64::MAX,
            old(self)@.stats.drops_srtp < u64::MAX,
            old(self)@.stats.drops_bad_disclosure < u64::MAX,
            waiting(old(self)@.drawers) <= usize::MAX,
            outcome == SrtpOutcome::Authenticated ==> clock_runs_on(old(self)@),
        ensures
            final(self).wf(),
            final(self)@ == after_verdict(old(self)@, outcome),
            verdict_answer(old(self)@, outcome, r),
    {
        let ghost before = self@;
        let a = match self.arriving.take() {
            Some(a) => a,
            None => {
                assert(false);
                return Err(TeslaDrop::Malformed);
            },
        };
        match self.inner.finish_unprotect(outcome) {
            Err(drop) => {
                self.stats.drops_srtp = self.stats.drops_srtp + 1;
                assert(self@ =~= after_verdict(before, outcome));
                return Err(TeslaDrop::Srtp(drop));
            },
            Ok(_) => {},
        }
        self.recovery.update(a.entry.ext_index);
        let index: u32 = self.params.disclosed_index(a.interval);
        let found = self.verifier.check(&a.disclosed, index);
        assert(self@ =~= authenticated(before));
        let settled: usize = match found {
            Disclosure::New(keys) => {
                proof {
                    let brought = brought_keys(before);
                    assert(brought == crate::tesla::chain::key_list(keys@));
                    assert forall|n: int| 0 <= n < keys@.len() implies self@.clock_covers(
                        (#[trigger] keys@[n]).0,
                        keys@[n].1@,
                        a.entry.arrival_ns,
                    ) by {
                        assert(brought[n] == (keys@[n].0, keys@[n].1@));
                        assert(before.clock_covers(
                            brought[n].0,
                            brought[n].1,
                            a.entry.arrival_ns,
                        ));
                    }
                }
                self.settle(&keys, a.entry.arrival_ns)
            },
            Disclosure::NotNew => 0,
            Disclosure::Invalid | Disclosure::TooFarAhead | Disclosure::BeyondChain => {
                self.stats.drops_bad_disclosure = self.stats.drops_bad_disclosure + 1;
                assert(self@ =~= after_verdict(before, outcome));
                return Err(TeslaDrop::BadDisclosure);
            },
        };
        proof {
            law_verdicts_leave_the_rest(
                authenticated(before),
                brought_keys(before),
                a.entry.arrival_ns,
            );
            assert(self@ == after_settling(before));
            assert(self@.stats.delivered == before.stats.delivered);
        }
        self.file(a.interval, a.entry);
        Ok(settled)
    }

    /// Whether a genuine packet that waits for this key arrived after `now_ns`.
    fn drawer_runs_ahead(&self, interval: u32, key: &ChainKey, now_ns: u64) -> (r: bool)
        requires
            self.wf(),
        ensures
            r == !self@.clock_covers(interval, key@, now_ns),
    {
        let ghost waited = drawer_at(self@.drawers, interval);
        let entries = match self.drawers.get(&interval) {
            Some(entries) => entries,
            None => {
                return false;
            },
        };
        assert(entries_view(entries@) =~= waited);
        let prepared = self.alg.prepare(key);
        let mut i: usize = 0;
        while i < entries.len()
            invariant
                i <= entries@.len(),
                self.wf(),
                waited == drawer_at(self@.drawers, interval),
                entries_view(entries@) == waited,
                prepared.wf(),
                prepared.alg() == self.alg,
                prepared.key() == crate::tesla::chain::mac_key_of(key@, self.alg.key_len()),
                forall|n: int|
                    0 <= n < i && genuine(self.alg, key@, #[trigger] waited[n])
                        ==> waited[n].arrival_ns <= now_ns,
            decreases entries@.len() - i,
        {
            let entry = &entries[i];
            assert(entry@ == waited[i as int]);
            if entry.arrival_ns > now_ns {
                let tag = prepared.tag(entry.ext_index, entry.covered.as_slice());
                if same_bytes(tag.as_slice(), entry.mac.as_slice()) {
                    assert(genuine(self.alg, key@, waited[i as int]));
                    return true;
                }
            }
            i += 1;
        }
        false
    }

    /// Whether the arriving packet brings the key of a genuine packet that
    /// arrived after it.
    fn clock_ran_back(&self, a: &Arriving) -> (r: bool)
        requires
            self.wf(),
            self@.arriving == Some(
                (Arrival { interval: a.interval, disclosed: a.disclosed@, waiting: a.entry@ }),
            ),
        ensures
            r == !clock_runs_on(self@),
    {
        let now_ns: u64 = a.entry.arrival_ns;
        let index: u32 = self.params.disclosed_index(a.interval);
        let keys = match self.verifier.examine(&a.disclosed, index) {
            Disclosure::New(keys) => keys,
            _ => {
                return false;
            },
        };
        let ghost brought = brought_keys(self@);
        assert(brought == crate::tesla::chain::key_list(keys@));
        let mut i: usize = 0;
        while i < keys.len()
            invariant
                i <= keys@.len(),
                self.wf(),
                now_ns == self@.arriving->0.waiting.arrival_ns,
                brought == brought_keys(self@),
                brought == crate::tesla::chain::key_list(keys@),
                self@.trust.proves(self@.arriving->0.disclosed, claimed_index(self@)),
                forall|n: int|
                    0 <= n < i ==> self@.clock_covers(
                        (#[trigger] brought[n]).0,
                        brought[n].1,
                        now_ns,
                    ),
            decreases keys@.len() - i,
        {
            assert(brought[i as int] == (keys@[i as int].0, keys@[i as int].1@));
            if self.drawer_runs_ahead(keys[i].0, &keys[i].1, now_ns) {
                return true;
            }
            i += 1;
        }
        false
    }

    /// [`TeslaReceiver::finish_arrival`] for a clock that may run back: `None`,
    /// with nothing changed, where an authenticated packet brings the key of a
    /// genuine one that arrived after it, so that its latency would be negative.
    pub fn try_finish_arrival(&mut self, outcome: SrtpOutcome) -> (r: Option<
        Result<usize, TeslaDrop>,
    >)
        requires
            old(self).wf(),
            old(self)@.arriving is Some,
            old(self)@.stats.delivered < u64::MAX,
            old(self)@.stats.drops_srtp < u64::MAX,
            old(self)@.stats.drops_bad_disclosure < u64::MAX,
            waiting(old(self)@.drawers) <= usize::MAX,
        ensures
            final(self).wf(),
            match r {
                Some(answer) => {
                    &&& outcome == SrtpOutcome::Authenticated ==> clock_runs_on(old(self)@)
                    &&& final(self)@ == after_verdict(old(self)@, outcome)
                    &&& verdict_answer(old(self)@, outcome, answer)
                },
                None => {
                    &&& outcome == SrtpOutcome::Authenticated
                    &&& !clock_runs_on(old(self)@)
                    &&& final(self)@ == old(self)@
                },
            },
    {
        if outcome == SrtpOutcome::Authenticated {
            let ran_back: bool = match &self.arriving {
                Some(a) => self.clock_ran_back(a),
                None => false,
            };
            if ran_back {
                return None;
            }
        }
        Some(self.finish_arrival(outcome))
    }
}

impl TeslaReceiver {
    /// Law: every delivered packet is accounted for. It has been verified, it
    /// has been found forged, or it still waits; and each verified packet has
    /// a latency.
    pub proof fn law_every_delivery_is_accounted_for(&self)
        requires
            self.wf(),
        ensures
            self@.stats.delivered == self@.stats.verified + self@.stats.forged + waiting(
                self@.drawers,
            ),
            self@.stats.latencies_ns.len() == self@.stats.verified,
            self@.stats.peak_pending >= waiting(self@.drawers),
            self@.arriving is None ==> self@.balanced(),
    {
    }
}

impl TeslaCounts {
    /// Datagrams that were delivered or dropped.
    pub open spec fn datagrams(self) -> int {
        self.delivered + self.drops_malformed + self.drops_unsafe + self.drops_bad_disclosure
            + self.drops_srtp
    }

    /// Every datagram counter can count one more.
    pub open spec fn has_room(self) -> bool {
        &&& self.delivered < u64::MAX
        &&& self.drops_malformed < u64::MAX
        &&& self.drops_unsafe < u64::MAX
        &&& self.drops_bad_disclosure < u64::MAX
        &&& self.drops_srtp < u64::MAX
    }
}

/// The state after a datagram went through the receiver and, where it was let
/// through, the SRTP session.
pub open spec fn processed(
    s: TeslaState,
    data: Seq<u8>,
    arrival_ns: u64,
    outcome: SrtpOutcome,
) -> TeslaState {
    let taken = after_intake(s, data, arrival_ns);
    if taken.arriving is Some {
        after_verdict(taken, outcome)
    } else {
        taken
    }
}

/// What the receiver answers to a datagram in the end: how many waiting packets
/// got their verdict, or why the datagram is dropped. `outcome` is what the SRTP
/// session makes of the packet, if it gets that far.
pub open spec fn process_answer(
    s: TeslaState,
    data: Seq<u8>,
    arrival_ns: u64,
    outcome: SrtpOutcome,
) -> Result<nat, TeslaDrop> {
    let packet = crate::tesla::extended_packet(data);
    let taken = after_intake(s, data, arrival_ns);
    if too_short(data) {
        Err(TeslaDrop::Malformed)
    } else if !s.params.is_safe(arrival_ns, crate::tesla::extension_interval(data)) {
        Err(TeslaDrop::UnsafeLate)
    } else {
        match crate::receiver::unprotect_answer(s.srtp, packet, outcome) {
            Err(drop) => Err(TeslaDrop::Srtp(drop)),
            Ok(_) => if disclosure_ok(taken) {
                Ok((waiting(s.drawers) - waiting(after_settling(taken).drawers)) as nat)
            } else {
                Err(TeslaDrop::BadDisclosure)
            },
        }
    }
}

/// The state after several datagrams, one after the other.
pub open spec fn processed_all(
    s: TeslaState,
    datagrams: Seq<(Seq<u8>, u64, SrtpOutcome)>,
) -> TeslaState
    decreases datagrams.len(),
{
    if datagrams.len() == 0 {
        s
    } else {
        let (data, arrival_ns, outcome) = datagrams.last();
        processed(processed_all(s, datagrams.drop_last()), data, arrival_ns, outcome)
    }
}

impl TeslaState {
    /// No datagram is on its way, every delivered packet waits or has its
    /// verdict, each verified one has a latency, and the peak was not exceeded.
    pub open spec fn balanced(self) -> bool {
        &&& self.arriving is None
        &&& self.srtp.in_flight is None
        &&& self.stats.delivered == self.stats.verified + self.stats.forged + waiting(
            self.drawers,
        )
        &&& self.stats.latencies_ns.len() == self.stats.verified
        &&& self.stats.peak_pending >= waiting(self.drawers)
    }
}

/// Law: the two calls give the answer. A datagram that the first call drops has
/// its final answer; for the others the second call, with the SRTP session's
/// outcome, gives it.
pub proof fn law_two_calls_give_the_verdict(
    s: TeslaState,
    data: Seq<u8>,
    arrival_ns: u64,
    outcome: SrtpOutcome,
    taken: Result<OpenStep, TeslaDrop>,
    answer: Result<usize, TeslaDrop>,
)
    requires
        s.balanced(),
        intake_answer(s, data, arrival_ns, taken),
        taken is Ok ==> verdict_answer(after_intake(s, data, arrival_ns), outcome, answer),
    ensures
        match (taken, answer) {
            (Err(drop), _) => {
                &&& process_answer(s, data, arrival_ns, outcome) == Err::<nat, TeslaDrop>(drop)
                &&& processed(s, data, arrival_ns, outcome) == after_intake(s, data, arrival_ns)
            },
            (Ok(_), Ok(n)) => {
                &&& process_answer(s, data, arrival_ns, outcome) == Ok::<nat, TeslaDrop>(n as nat)
                &&& processed(s, data, arrival_ns, outcome) == after_verdict(
                    after_intake(s, data, arrival_ns),
                    outcome,
                )
            },
            (Ok(_), Err(drop)) => {
                &&& process_answer(s, data, arrival_ns, outcome) == Err::<nat, TeslaDrop>(drop)
                &&& processed(s, data, arrival_ns, outcome) == after_verdict(
                    after_intake(s, data, arrival_ns),
                    outcome,
                )
            },
        },
{
}

/// A drawer has no more genuine packets than packets.
proof fn lemma_latencies_len(
    alg: TeslaMacAlg,
    key: Seq<u8>,
    entries: Seq<Waiting>,
    now_ns: u64,
)
    ensures
        genuine_latencies(alg, key, entries, now_ns).len() <= entries.len(),
    decreases entries.len(),
{
    if entries.len() > 0 {
        lemma_latencies_len(alg, key, entries.drop_last(), now_ns);
    }
}

/// Verdicts move packets from the drawers to the two counters of verdicts.
proof fn lemma_settled_balance(s: TeslaState, keys: Seq<(u32, Seq<u8>)>, now_ns: u64)
    requires
        s.stats.delivered == s.stats.verified + s.stats.forged + waiting(s.drawers),
        s.stats.latencies_ns.len() == s.stats.verified,
    ensures
        ({
            let after = s.settled_all(keys, now_ns);
            &&& after.stats.delivered == after.stats.verified + after.stats.forged + waiting(
                after.drawers,
            )
            &&& after.stats.latencies_ns.len() == after.stats.verified
            &&& waiting(after.drawers) <= waiting(s.drawers)
            &&& after.stats.delivered == s.stats.delivered
            &&& after.stats.peak_pending == s.stats.peak_pending
        }),
    decreases keys.len(),
{
    if keys.len() > 0 {
        lemma_settled_balance(s, keys.drop_last(), now_ns);
        let at = s.settled_all(keys.drop_last(), now_ns);
        let (interval, key) = keys.last();
        lemma_waiting_remove(at.drawers, interval);
        lemma_latencies_len(at.alg, key, drawer_at(at.drawers, interval), now_ns);
    }
}

/// Law: every datagram counts once. It is delivered, or dropped for the one
/// cause that the answer names, and no other of these counters moves. A delivery
/// says how many waiting packets got their verdict, and so many more are
/// verified or forged; a drop gives no verdict. The books stay balanced.
pub proof fn law_every_datagram_counts_once(
    s: TeslaState,
    data: Seq<u8>,
    arrival_ns: u64,
    outcome: SrtpOutcome,
)
    requires
        s.balanced(),
        s.stats.has_room(),
    ensures
        ({
            let done = processed(s, data, arrival_ns, outcome);
            let answer = process_answer(s, data, arrival_ns, outcome);
            let (before, after) = (s.stats, done.stats);
            &&& done.balanced()
            &&& after.datagrams() == before.datagrams() + 1
            &&& after.delivered - before.delivered == if answer is Ok { 1int } else { 0 }
            &&& after.drops_malformed - before.drops_malformed == if answer == Err::<
                nat,
                TeslaDrop,
            >(TeslaDrop::Malformed) { 1int } else { 0 }
            &&& after.drops_unsafe - before.drops_unsafe == if answer == Err::<nat, TeslaDrop>(
                TeslaDrop::UnsafeLate,
            ) { 1int } else { 0 }
            &&& after.drops_bad_disclosure - before.drops_bad_disclosure == if answer == Err::<
                nat,
                TeslaDrop,
            >(TeslaDrop::BadDisclosure) { 1int } else { 0 }
            &&& after.drops_srtp - before.drops_srtp == if answer matches Err(TeslaDrop::Srtp(_)) {
                1int
            } else {
                0
            }
            &&& after.verified + after.forged == before.verified + before.forged + match answer {
                Ok(n) => n as int,
                Err(_) => 0,
            }
        }),
{
    let taken = after_intake(s, data, arrival_ns);
    if taken.arriving is Some && outcome == SrtpOutcome::Authenticated {
        let a = taken.arriving->0;
        law_verdicts_leave_the_rest(
            authenticated(taken),
            brought_keys(taken),
            a.waiting.arrival_ns,
        );
        lemma_settled_balance(authenticated(taken), brought_keys(taken), a.waiting.arrival_ns);
        lemma_waiting_push(after_settling(taken).drawers, a.interval, a.waiting);
    }
}

/// Law: every run is accounted for. After any datagrams, whatever the SRTP
/// session made of them, each one was delivered or dropped for one cause, and
/// every delivered packet was verified, was found forged, or still waits.
pub proof fn law_every_run_is_accounted_for(
    params: TeslaSchedule,
    anchor: Seq<u8>,
    alg: TeslaMacAlg,
    srtp: crate::receiver::ReceiverState,
    datagrams: Seq<(Seq<u8>, u64, SrtpOutcome)>,
)
    requires
        srtp.in_flight is None,
        datagrams.len() <= u64::MAX,
    ensures
        ({
            let done = processed_all(fresh_receiver(params, anchor, alg, srtp), datagrams);
            &&& done.balanced()
            &&& done.stats.datagrams() == datagrams.len()
        }),
    decreases datagrams.len(),
{
    if datagrams.len() == 0 {
        lemma_nothing_waits(0x1_0000_0000);
    } else {
        law_every_run_is_accounted_for(params, anchor, alg, srtp, datagrams.drop_last());
        let (data, arrival_ns, outcome) = datagrams.last();
        law_every_datagram_counts_once(
            processed_all(fresh_receiver(params, anchor, alg, srtp), datagrams.drop_last()),
            data,
            arrival_ns,
            outcome,
        );
    }
}

impl TeslaState {
    /// Every waiting packet arrived by this time.
    pub open spec fn arrived_by(self, now_ns: u64) -> bool {
        forall|i: u32, n: int|
            0 <= n < drawer_at(self.drawers, i).len() ==> (#[trigger] drawer_at(
                self.drawers,
                i,
            )[n]).arrival_ns <= now_ns
    }
}

/// Verdicts leave no packet in the drawers that was not there.
proof fn lemma_settled_arrived_by(
    s: TeslaState,
    keys: Seq<(u32, Seq<u8>)>,
    settled_ns: u64,
    now_ns: u64,
)
    requires
        s.arrived_by(now_ns),
    ensures
        s.settled_all(keys, settled_ns).arrived_by(now_ns),
    decreases keys.len(),
{
    if keys.len() > 0 {
        lemma_settled_arrived_by(s, keys.drop_last(), settled_ns, now_ns);
        let at = s.settled_all(keys.drop_last(), settled_ns);
        let after = s.settled_all(keys, settled_ns);
        assert forall|i: u32, n: int| 0 <= n < drawer_at(after.drawers, i).len() implies (
        #[trigger] drawer_at(after.drawers, i)[n]).arrival_ns <= now_ns by {
            assert(drawer_at(after.drawers, i)[n] == drawer_at(at.drawers, i)[n]);
        }
    }
}

/// A datagram puts no packet into the drawers that arrived after it, nor after
/// those that wait already.
proof fn lemma_processed_arrived_by(
    s: TeslaState,
    data: Seq<u8>,
    arrival_ns: u64,
    outcome: SrtpOutcome,
)
    requires
        s.arriving is None,
        s.arrived_by(arrival_ns),
    ensures
        processed(s, data, arrival_ns, outcome).arrived_by(arrival_ns),
        processed(s, data, arrival_ns, outcome).arriving is None,
{
    let taken = after_intake(s, data, arrival_ns);
    if taken.arriving is Some && outcome == SrtpOutcome::Authenticated {
        let a = taken.arriving->0;
        law_verdicts_leave_the_rest(authenticated(taken), brought_keys(taken), arrival_ns);
        lemma_settled_arrived_by(
            authenticated(taken),
            brought_keys(taken),
            arrival_ns,
            arrival_ns,
        );
        let at = after_settling(taken);
        assert(at.arrived_by(arrival_ns));
        let after = delivered(at, a);
        assert forall|i: u32, n: int| 0 <= n < drawer_at(after.drawers, i).len() implies (
        #[trigger] drawer_at(after.drawers, i)[n]).arrival_ns <= arrival_ns by {
            if i == a.interval && n == drawer_at(at.drawers, i).len() {
                assert(drawer_at(after.drawers, i)[n] == a.waiting);
            } else {
                assert(drawer_at(after.drawers, i)[n] == drawer_at(at.drawers, i)[n]);
            }
        }
    }
}

/// Law: a clock that never runs back is never noticed. After datagrams whose
/// arrival times do not fall, the next one can always be finished.
pub proof fn law_steady_clock_runs_on(
    params: TeslaSchedule,
    anchor: Seq<u8>,
    alg: TeslaMacAlg,
    srtp: crate::receiver::ReceiverState,
    datagrams: Seq<(Seq<u8>, u64, SrtpOutcome)>,
    data: Seq<u8>,
    arrival_ns: u64,
)
    requires
        forall|i: int, j: int|
            0 <= i < j < datagrams.len() ==> (#[trigger] datagrams[i]).1 <= (
            #[trigger] datagrams[j]).1,
        forall|i: int| 0 <= i < datagrams.len() ==> (#[trigger] datagrams[i]).1 <= arrival_ns,
    ensures
        ({
            let s = processed_all(fresh_receiver(params, anchor, alg, srtp), datagrams);
            let taken = after_intake(s, data, arrival_ns);
            &&& s.arriving is None
            &&& s.arrived_by(arrival_ns)
            &&& taken.arriving is Some ==> clock_runs_on(taken)
        }),
    decreases datagrams.len(),
{
    if datagrams.len() > 0 {
        let rest = datagrams.drop_last();
        let (last, at_ns, outcome) = datagrams.last();
        assert forall|i: int| 0 <= i < rest.len() implies (#[trigger] rest[i]).1 <= at_ns by {
            assert(datagrams[i].1 <= datagrams[datagrams.len() - 1].1);
        }
        assert forall|i: int, j: int| 0 <= i < j < rest.len() implies (#[trigger] rest[i]).1 <= (
        #[trigger] rest[j]).1 by {
            assert(datagrams[i].1 <= datagrams[j].1);
        }
        law_steady_clock_runs_on(params, anchor, alg, srtp, rest, last, at_ns);
        let before = processed_all(fresh_receiver(params, anchor, alg, srtp), rest);
        lemma_processed_arrived_by(before, last, at_ns, outcome);
        assert(datagrams[datagrams.len() - 1].1 <= arrival_ns);
    }
}

/// Law: a datagram that comes too late is dropped before anything else. No
/// drawer, no key and no part of the SRTP layer changes.
pub proof fn law_late_packet_changes_nothing(s: TeslaState, data: Seq<u8>, arrival_ns: u64)
    requires
        !too_short(data),
        !s.params.is_safe(arrival_ns, crate::tesla::extension_interval(data)),
    ensures
        ({
            let after = after_intake(s, data, arrival_ns);
            after == (TeslaState { stats: after.stats, ..s })
        }),
{
}

/// Law: a packet that the SRTP layer rejects brings no key and waits in no
/// drawer.
pub proof fn law_rejected_packet_teaches_nothing(s: TeslaState, outcome: SrtpOutcome)
    requires
        outcome != SrtpOutcome::Authenticated,
    ensures
        after_verdict(s, outcome).trust == s.trust,
        after_verdict(s, outcome).drawers == s.drawers,
        after_verdict(s, outcome).highest == s.highest,
        after_verdict(s, outcome).stats.verified == s.stats.verified,
{
}

/// Law: a drawer of genuine packets is verified whole, and a drawer without a
/// genuine packet is found forged whole.
pub proof fn law_verdict_follows_the_mac(
    alg: TeslaMacAlg,
    key: Seq<u8>,
    entries: Seq<Waiting>,
    now_ns: u64,
)
    ensures
        (forall|i: int| 0 <= i < entries.len() ==> genuine(alg, key, #[trigger] entries[i]))
            ==> genuine_latencies(alg, key, entries, now_ns).len() == entries.len(),
        (forall|i: int| 0 <= i < entries.len() ==> !genuine(alg, key, #[trigger] entries[i]))
            ==> genuine_latencies(alg, key, entries, now_ns).len() == 0,
    decreases entries.len(),
{
    if entries.len() > 0 {
        let rest = entries.drop_last();
        law_verdict_follows_the_mac(alg, key, rest, now_ns);
        assert forall|i: int| 0 <= i < rest.len() implies rest[i] == entries[i] by {}
        assert(entries.last() == entries[entries.len() - 1]);
    }
}

/// Law: what the sender sends is genuine. A packet that carries the sender's
/// extension, kept as it arrived, passes the MAC check under its interval's
/// key.
pub proof fn law_senders_packet_is_genuine(
    sender: crate::tesla::sender::SenderState,
    packet: Seq<u8>,
    ext_index: u64,
    send_ns: u64,
    arrival_ns: u64,
)
    requires
        packet.len() > 0,
    ensures
        ({
            let data = packet + sender.extension_for(packet, ext_index, send_ns);
            let w = Waiting {
                ext_index,
                arrival_ns,
                mac: crate::tesla::extension_mac(data),
                covered: crate::tesla::extended_packet(data),
            };
            genuine(sender.alg, sender.keys[sender.interval(send_ns) as int]@, w)
        }),
{
    let i = sender.interval(send_ns);
    crate::tesla::law_extension_roundtrip(
        packet,
        i,
        sender.keys[sender.params.disclosed_at(i as int)]@,
        crate::tesla::mac::packet_tag(sender.alg, sender.keys[i as int]@, ext_index, packet),
    );
}

/// Law: a packet is genuine exactly if every byte of the MAC that it carried is
/// that of the tag under its interval's key. One byte that differs is enough for a
/// forgery.
pub proof fn law_genuine_needs_every_mac_byte(alg: TeslaMacAlg, key: Seq<u8>, w: Waiting)
    ensures
        ({
            let tag = crate::tesla::mac::packet_tag(alg, key, w.ext_index, w.covered);
            &&& genuine(alg, key, w) <==> w.mac.len() == 10 && forall|i: int|
                0 <= i < 10 ==> #[trigger] w.mac[i] == tag[i]
            &&& forall|i: int|
                0 <= i < w.mac.len() && #[trigger] w.mac[i] != tag[i] ==> !genuine(alg, key, w)
        }),
{
    let tag = crate::tesla::mac::packet_tag(alg, key, w.ext_index, w.covered);
    if w.mac.len() == 10 && forall|i: int| 0 <= i < 10 ==> #[trigger] w.mac[i] == tag[i] {
        assert(w.mac =~= tag);
    }
}

/// The latencies of a drawer are those of the packets whose whole MAC is right.
proof fn lemma_latencies_of_the_genuine(
    alg: TeslaMacAlg,
    key: Seq<u8>,
    entries: Seq<Waiting>,
    now_ns: u64,
    good: spec_fn(Waiting) -> bool,
    bad: spec_fn(Waiting) -> bool,
    waited: spec_fn(Waiting) -> u64,
)
    requires
        forall|w: Waiting| #[trigger]
            good(w) <==> w.mac == crate::tesla::mac::packet_tag(alg, key, w.ext_index, w.covered),
        forall|w: Waiting| #[trigger] bad(w) <==> !good(w),
        forall|w: Waiting| #[trigger] waited(w) == (now_ns - w.arrival_ns) as u64,
    ensures
        genuine_latencies(alg, key, entries, now_ns) == entries.filter(good).map_values(waited),
        entries.filter(good).len() + entries.filter(bad).len() == entries.len(),
    decreases entries.len(),
{
    reveal(Seq::filter);
    if entries.len() > 0 {
        let rest = entries.drop_last();
        lemma_latencies_of_the_genuine(alg, key, rest, now_ns, good, bad, waited);
        assert(bad(entries.last()) == !good(entries.last()));
    }
    assert(genuine_latencies(alg, key, entries, now_ns) =~= entries.filter(good).map_values(
        waited,
    ));
}

/// Law: a disclosed key judges each waiting packet of its interval by its whole
/// MAC. Those whose MAC is the tag under the key are verified, and their waiting
/// times kept in order; every other one is forged; the drawer is empty afterwards
/// and the other drawers are as they were.
pub proof fn law_key_judges_by_the_whole_mac(
    s: TeslaState,
    interval: u32,
    key: Seq<u8>,
    now_ns: u64,
    good: spec_fn(Waiting) -> bool,
    bad: spec_fn(Waiting) -> bool,
    waited: spec_fn(Waiting) -> u64,
)
    requires
        forall|w: Waiting| #[trigger]
            good(w) <==> w.mac == crate::tesla::mac::packet_tag(s.alg, key, w.ext_index, w.covered),
        forall|w: Waiting| #[trigger] bad(w) <==> !good(w),
        forall|w: Waiting| #[trigger] waited(w) == (now_ns - w.arrival_ns) as u64,
        s.drawers.contains_key(interval),
        s.stats.verified + s.drawers[interval].len() <= u64::MAX,
        s.stats.forged + s.drawers[interval].len() <= u64::MAX,
    ensures
        ({
            let after = s.settled(interval, key, now_ns);
            let entries = s.drawers[interval];
            &&& after.stats.verified == s.stats.verified + entries.filter(good).len()
            &&& after.stats.forged == s.stats.forged + entries.filter(bad).len()
            &&& after.stats.latencies_ns == s.stats.latencies_ns + entries.filter(good).map_values(
                waited,
            )
            &&& !after.drawers.contains_key(interval)
            &&& forall|i: u32|
                i != interval ==> #[trigger] drawer_at(after.drawers, i) == drawer_at(s.drawers, i)
        }),
{
    let entries = s.drawers[interval];
    lemma_latencies_of_the_genuine(s.alg, key, entries, now_ns, good, bad, waited);
    assert(entries.filter(good).map_values(waited).len() == entries.filter(good).len());
}

/// Law: several keys judge one after the other, each its own drawer. The drawer of
/// every key is empty afterwards, and every other one is as it was.
pub proof fn law_keys_open_their_own_drawers(
    s: TeslaState,
    keys: Seq<(u32, Seq<u8>)>,
    now_ns: u64,
    interval: u32,
)
    ensures
        ({
            let after = s.settled_all(keys, now_ns);
            &&& (exists|n: int| 0 <= n < keys.len() && (#[trigger] keys[n]).0 == interval)
                ==> drawer_at(after.drawers, interval).len() == 0
            &&& (forall|n: int| 0 <= n < keys.len() ==> (#[trigger] keys[n]).0 != interval)
                ==> drawer_at(after.drawers, interval) == drawer_at(s.drawers, interval)
        }),
        keys.len() == 0 ==> s.settled_all(keys, now_ns) == s,
        keys.len() > 0 ==> s.settled_all(keys, now_ns) == s.settled_all(
            keys.take(keys.len() - 1),
            now_ns,
        ).settled(keys[keys.len() - 1].0, keys[keys.len() - 1].1, now_ns),
    decreases keys.len(),
{
    if keys.len() > 0 {
        let rest = keys.drop_last();
        assert(rest =~= keys.take(keys.len() - 1));
        law_keys_open_their_own_drawers(s, rest, now_ns, interval);
        if exists|n: int| 0 <= n < keys.len() && (#[trigger] keys[n]).0 == interval {
            let n = choose|n: int| 0 <= n < keys.len() && (#[trigger] keys[n]).0 == interval;
            if n < rest.len() {
                assert(rest[n].0 == interval);
            }
        } else {
            assert forall|n: int| 0 <= n < rest.len() implies (#[trigger] rest[n]).0
                != interval by {
                assert(keys[n].0 != interval);
            }
        }
    }
}

/// Law: what is kept of a datagram that is let through. Its packet is kept byte
/// for byte, with the MAC, the key and the interval that the 34 bytes behind it
/// carry, the time it came, and the index that its sequence number stands for.
pub proof fn law_intake_keeps_the_datagram(s: TeslaState, data: Seq<u8>, arrival_ns: u64)
    requires
        data.len() >= 34 + 12,
        after_intake(s, data, arrival_ns).arriving is Some,
        s.arriving is None,
    ensures
        ({
            let a = after_intake(s, data, arrival_ns).arriving->0;
            let n = data.len() - 34;
            &&& a.waiting.covered == data.subrange(0, n)
            &&& a.waiting.mac == data.subrange(n + 24, n + 34)
            &&& a.waiting.arrival_ns == arrival_ns
            &&& a.waiting.ext_index == crate::receiver::index_recovery::extended_index(
                s.highest,
                (data[2] * 0x100 + data[3]) as u16,
            )
            &&& a.disclosed == data.subrange(n + 4, n + 24)
            &&& a.interval == data[n] * 0x100_0000 + data[n + 1] * 0x1_0000 + data[n + 2] * 0x100
                + data[n + 3]
            &&& s.params.is_safe(arrival_ns, a.interval)
        }),
{
    let n = data.len() - 34;
    crate::tesla::law_datagram_layout(data);
    let a = after_intake(s, data, arrival_ns).arriving->0;
    assert(a.waiting.covered =~= data.subrange(0, n));
    assert(a.waiting.mac =~= data.subrange(n + 24, n + 34));
    assert(a.disclosed =~= data.subrange(n + 4, n + 24));
}

/// Law: each drop of a datagram has its cause. It is malformed exactly if it is
/// shorter than an RTP header and an extension, too late exactly if its interval's
/// key may be public; after that the SRTP layer's answer stands, and of what
/// authenticates only a key that is neither old nor proven is refused.
pub proof fn law_datagram_drops_have_their_cause(
    s: TeslaState,
    data: Seq<u8>,
    arrival_ns: u64,
    outcome: SrtpOutcome,
)
    requires
        s.arriving is None,
        s.srtp.in_flight is None,
    ensures
        ({
            let answer = process_answer(s, data, arrival_ns, outcome);
            let n = data.len() - 34;
            let interval = (data[n] * 0x100_0000 + data[n + 1] * 0x1_0000 + data[n + 2] * 0x100
                + data[n + 3]) as u32;
            let srtp = crate::receiver::unprotect_answer(s.srtp, data.subrange(0, n), outcome);
            let index = s.params.disclosed_at(interval as int) as u32;
            let key = data.subrange(n + 4, n + 24);
            let safe = s.params.is_safe(arrival_ns, interval);
            &&& answer == Err::<nat, TeslaDrop>(TeslaDrop::Malformed) <==> data.len() < 46
            &&& data.len() >= 46 ==> (answer == Err::<nat, TeslaDrop>(TeslaDrop::UnsafeLate)
                <==> !safe)
            &&& data.len() >= 46 && safe && srtp is Err ==> answer == Err::<nat, TeslaDrop>(
                TeslaDrop::Srtp(srtp->Err_0),
            )
            &&& data.len() >= 46 && safe && srtp is Ok ==> (answer is Ok <==> index <= s.trust.index
                || s.trust.proves(key, index))
            &&& data.len() >= 46 && safe && srtp is Ok && !(answer is Ok) ==> answer == Err::<
                nat,
                TeslaDrop,
            >(TeslaDrop::BadDisclosure)
        }),
{
    if data.len() >= 46 {
        let n = data.len() - 34;
        crate::tesla::law_datagram_layout(data);
        assert(crate::tesla::extended_packet(data) =~= data.subrange(0, n));
        assert(crate::tesla::extension_key(data) =~= data.subrange(n + 4, n + 24));
    }
}

/// Law: an authenticated packet with an acceptable key waits in its interval's
/// drawer, last in line, and its key is acted on; one whose key is refused waits
/// nowhere and teaches nothing.
pub proof fn law_authentic_packet_waits_for_its_key(s: TeslaState)
    requires
        s.arriving is Some,
        s.stats.delivered < u64::MAX,
    ensures
        ({
            let a = s.arriving->0;
            let index = s.params.disclosed_at(a.interval as int) as u32;
            let after = after_verdict(s, SrtpOutcome::Authenticated);
            let proven = s.trust.proves(a.disclosed, index);
            &&& after.arriving is None
            &&& index <= s.trust.index || proven ==> {
                let line = drawer_at(after.drawers, a.interval);
                &&& line.len() > 0
                &&& line[line.len() - 1] == a.waiting
                &&& after.stats.delivered == s.stats.delivered + 1
            }
            &&& proven ==> after.trust.index == index && after.trust.key == a.disclosed
            &&& !proven ==> after.trust == s.trust
            &&& index <= s.trust.index && !proven ==> forall|i: u32|
                i != a.interval ==> #[trigger] drawer_at(after.drawers, i) == drawer_at(
                    s.drawers,
                    i,
                )
            &&& index > s.trust.index && !proven ==> after.drawers == s.drawers
                && after.stats.delivered == s.stats.delivered
            &&& s.highest is None ==> after.highest == Some(a.waiting.ext_index)
            &&& s.highest is Some ==> after.highest == Some(
                if s.highest->0 >= a.waiting.ext_index { s.highest->0 } else {
                    a.waiting.ext_index
                },
            )
        }),
{
    let a = s.arriving->0;
    law_verdicts_leave_the_rest(authenticated(s), brought_keys(s), a.waiting.arrival_ns);
}

/// Law: a proven key settles everything that it proves. After it the drawers of all
/// intervals from behind the trusted one up to the disclosed one hold nothing but
/// what arrived just now; every other drawer is as it was.
pub proof fn law_proven_key_settles_its_intervals(s: TeslaState, i: u32)
    requires
        s.arriving is Some,
        s.trust.proves(
            s.arriving->0.disclosed,
            s.params.disclosed_at(s.arriving->0.interval as int) as u32,
        ),
        i != s.arriving->0.interval,
    ensures
        ({
            let after = after_verdict(s, SrtpOutcome::Authenticated);
            let index = s.params.disclosed_at(s.arriving->0.interval as int) as u32;
            &&& s.trust.index < i <= index ==> drawer_at(after.drawers, i).len() == 0
            &&& i <= s.trust.index || i > index ==> drawer_at(after.drawers, i) == drawer_at(
                s.drawers,
                i,
            )
        }),
{
    let keys = brought_keys(s);
    let now = s.arriving->0.waiting.arrival_ns;
    law_keys_open_their_own_drawers(authenticated(s), keys, now, i);
    if s.trust.index < i <= claimed_index(s) {
        assert(keys[i - s.trust.index - 1].0 == i);
    }
}

/// Law: the SRTP layer sees the packet in front of the extension, and the session's
/// outcome, whatever becomes of the datagram afterwards; a datagram that is
/// malformed or too late never reaches it.
pub proof fn law_srtp_layer_sees_the_packet(
    s: TeslaState,
    data: Seq<u8>,
    arrival_ns: u64,
    outcome: SrtpOutcome,
)
    requires
        s.arriving is None,
        s.srtp.in_flight is None,
    ensures
        ({
            let done = processed(s, data, arrival_ns, outcome);
            let n = data.len() - 34;
            let interval = (data[n] * 0x100_0000 + data[n + 1] * 0x1_0000 + data[n + 2] * 0x100
                + data[n + 3]) as u32;
            &&& data.len() < 46 || !s.params.is_safe(arrival_ns, interval) ==> done.srtp == s.srtp
            &&& data.len() >= 46 && s.params.is_safe(arrival_ns, interval) ==> done.srtp
                == crate::receiver::unprotected(s.srtp, data.subrange(0, n), outcome)
            &&& done.params == s.params && done.alg == s.alg
        }),
{
    let taken = after_intake(s, data, arrival_ns);
    if data.len() >= 46 {
        let n = data.len() - 34;
        crate::tesla::law_datagram_layout(data);
        assert(crate::tesla::extended_packet(data) =~= data.subrange(0, n));
    }
    if taken.arriving is Some {
        law_verdicts_leave_the_rest(
            authenticated(taken),
            brought_keys(taken),
            taken.arriving->0.waiting.arrival_ns,
        );
    }
}

/// Law: the peak is the most that ever waited. After a delivery it is what waits
/// now, or the old peak where that was higher.
pub proof fn law_peak_is_the_most_that_waited(s: TeslaState, a: Arrival)
    requires
        waiting(s.drawers) < u64::MAX,
    ensures
        ({
            let after = delivered(s, a);
            let now = waiting(after.drawers);
            &&& now == waiting(s.drawers) + 1
            &&& after.stats.peak_pending >= now
            &&& after.stats.peak_pending >= s.stats.peak_pending
            &&& after.stats.peak_pending == now || after.stats.peak_pending
                == s.stats.peak_pending
        }),
{
    lemma_waiting_push(s.drawers, a.interval, a.waiting);
}

/// Law: the verdicts that a proven key brings are given with the keys that hash
/// down from it, each for its own interval, at the time of the arrival that
/// disclosed it, on what waited before. A key that is not proven brings none.
pub proof fn law_verdicts_use_the_recovered_keys(s: TeslaState)
    requires
        s.arriving is Some,
    ensures
        ({
            let a = s.arriving->0;
            let index = s.params.disclosed_at(a.interval as int) as u32;
            let after = after_verdict(s, SrtpOutcome::Authenticated);
            let judged = authenticated(s).settled_all(
                crate::tesla::chain::recovered_keys(a.disclosed, s.trust.index, index),
                a.waiting.arrival_ns,
            );
            &&& authenticated(s).drawers == s.drawers
            &&& authenticated(s).stats == s.stats
            &&& authenticated(s).alg == s.alg
            &&& s.trust.proves(a.disclosed, index) ==> {
                &&& after.stats.verified == judged.stats.verified
                &&& after.stats.forged == judged.stats.forged
                &&& after.stats.latencies_ns == judged.stats.latencies_ns
            }
            &&& !s.trust.proves(a.disclosed, index) ==> {
                &&& after.stats.verified == s.stats.verified
                &&& after.stats.forged == s.stats.forged
                &&& after.stats.latencies_ns == s.stats.latencies_ns
            }
        }),
{
}

} // verus!
