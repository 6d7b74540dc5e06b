//! Receiver-side key management for fine-grained keying under real network
//! conditions (reordering, loss, gaps).
//!
//! The receiver computes each packet's generation `g` from the packet itself,
//! and keeps a bounded window of the last K generation keys so that reordered
//! packets still decrypt:
//!   - in window: cache hit, install if needed, decrypt;
//!   - ahead: catch up by ratcheting forward to `g` (capped by `seek_cap`);
//!   - behind the window: the key is already deleted, the packet is dropped
//!     (deleting old keys is the forward secrecy);
//!   - too far ahead: dropped (an unauthenticated packet must not demand
//!     unbounded work).
//!
//! Decryption itself is done by an SRTP session outside this library.
//! [`ReceiverKeyManager::begin_unprotect`] says which key the session needs
//! for a packet, and [`ReceiverKeyManager::finish_unprotect`] takes the
//! session's verdict. A catch-up runs on a copy of the ratchet, and its result
//! is adopted only once the packet has authenticated.

use openmls_rust_crypto::RustCrypto;
use vstd::prelude::*;

use crate::bytes::{read_be16, read_be32};
use crate::crypto::fresh_crypto;
use crate::keying::ratchet::{KeySalt, StreamRatchet};
use crate::receiver::generation::{frame_generation, GenerationScheme};
use crate::receiver::index_recovery::IndexRecovery;
use crate::transport::rtp::RTP_HEADER_LEN;

/// Mapping from a packet's header to its generation index `g`.
pub mod generation;
/// RFC 3711 sequence-number unwrapping (16-bit sequence number to extended
/// index).
pub mod index_recovery;

verus! {

/// Why a packet was not delivered.
#[derive(Debug, Clone, Copy, PartialEq, Eq, Structural)]
pub enum RecvDrop {
    /// The packet's generation is older than the window: its key is already
    /// deleted.
    BehindWindow,
    /// The packet claims a generation further ahead than `seek_cap` allows.
    SeekCapExceeded,
    /// SRTP replay protection rejected the packet (duplicate, or older than
    /// the replay window).
    SrtpReplay,
    /// Authentication failed (corrupt packet or wrong key), or the packet is
    /// shorter than an RTP header.
    AuthFail,
}

/// What the SRTP session made of a packet.
#[derive(Debug, Clone, Copy, PartialEq, Eq, Structural)]
pub enum SrtpOutcome {
    /// The packet authenticated and was decrypted.
    Authenticated,
    /// Replay protection rejected it.
    Replay,
    /// Its authentication tag does not check out.
    AuthFail,
}

/// Counters describing everything the receiver did.
#[derive(Debug, Clone, Copy, PartialEq, Eq, Structural)]
pub struct RecvStats {
    /// Packets that authenticated and decrypted.
    pub decrypted: u64,
    /// In-window cache hits (key found without any derivation).
    pub cache_hits: u64,
    /// Ratchet steps derived during catch-ups, also where the packet later
    /// failed to authenticate.
    pub catchup_steps: u64,
    /// The part of `catchup_steps` that was discarded because the packet did
    /// not authenticate.
    pub catchup_steps_wasted: u64,
    /// Largest single catch-up.
    pub max_catchup: u64,
    /// Key installs into the cipher.
    pub installs: u64,
    /// Packets whose generation is older than the window.
    pub drops_behind: u64,
    /// Packets whose claimed generation is too far ahead.
    pub drops_seek_cap: u64,
    /// Replay rejections.
    pub drops_replay: u64,
    /// Authentication failures and malformed packets.
    pub drops_auth: u64,
}

impl RecvStats {
    /// Every packet counter can count one more.
    pub open spec fn has_room(self) -> bool {
        &&& self.decrypted < u64::MAX
        &&& self.cache_hits < u64::MAX
        &&& self.installs < u64::MAX
        &&& self.drops_behind < u64::MAX
        &&& self.drops_seek_cap < u64::MAX
        &&& self.drops_replay < u64::MAX
        &&& self.drops_auth < u64::MAX
    }

    /// Packets that got a final verdict.
    pub open spec fn packets(self) -> int {
        self.decrypted + self.drops_behind + self.drops_seek_cap + self.drops_replay
            + self.drops_auth
    }
}

impl Default for RecvStats {
    fn default() -> (r: Self)
        ensures
            r == no_stats(),
            r.decrypted == 0 && r.cache_hits == 0 && r.installs == 0,
            r.catchup_steps == 0 && r.catchup_steps_wasted == 0 && r.max_catchup == 0,
            r.drops_behind == 0 && r.drops_seek_cap == 0 && r.drops_replay == 0,
            r.drops_auth == 0,
    {
        RecvStats {
            decrypted: 0,
            cache_hits: 0,
            catchup_steps: 0,
            catchup_steps_wasted: 0,
            max_catchup: 0,
            installs: 0,
            drops_behind: 0,
            drops_seek_cap: 0,
            drops_replay: 0,
            drops_auth: 0,
        }
    }
}

/// All counters at zero.
pub open spec fn no_stats() -> RecvStats {
    RecvStats {
        decrypted: 0,
        cache_hits: 0,
        catchup_steps: 0,
        catchup_steps_wasted: 0,
        max_catchup: 0,
        installs: 0,
        drops_behind: 0,
        drops_seek_cap: 0,
        drops_replay: 0,
        drops_auth: 0,
    }
}

/// What the SRTP session has to do for a packet that may be decrypted.
#[derive(Debug, Clone, Copy)]
pub struct OpenStep {
    /// Generation whose key the packet needs.
    pub generation: u64,
    /// The key and salt to install first; `None` where the cipher already
    /// holds them.
    pub install: Option<KeySalt>,
}

/// A packet that is with the SRTP session.
pub struct Flight {
    /// Its generation.
    pub generation: u64,
    /// Its extended index, where the scheme counts packets.
    pub index: Option<u64>,
    /// The ratchet steps taken for it; `None` where its key was in the window.
    pub jump: Option<u64>,
}

/// What a [`ReceiverKeyManager`] knows.
pub struct ReceiverState {
    pub scheme: GenerationScheme,
    pub ssrc: u32,
    /// How many generation keys are kept.
    pub window: nat,
    /// Most ratchet steps one packet may demand.
    pub seek_cap: u64,
    /// Replay window of the SRTP session.
    pub replay_window: u64,
    /// The first generation of the ratchet, and its chain secret.
    pub first: u64,
    pub secret: Seq<u8>,
    /// Highest extended index among authenticated packets.
    pub highest: Option<u64>,
    /// Highest generation reached by an authenticated packet.
    pub frontier: Option<u64>,
    /// Generation whose key is in the cipher.
    pub installed: Option<u64>,
    pub stats: RecvStats,
    /// The packet that is with the SRTP session.
    pub in_flight: Option<Flight>,
}

impl ReceiverState {
    /// The key and salt of generation `g`.
    pub open spec fn key_for(self, g: u64) -> Seq<u8> {
        crate::keying::ratchet::key_salt_after(self.secret, (g - self.first) as nat)
    }

    /// Whether generation `g` is one of the last `window` generations up to
    /// the frontier.
    pub open spec fn in_window(self, g: u64) -> bool {
        self.frontier matches Some(f) && self.first <= g <= f && f - g < self.window
    }
}

/// Where a packet falls.
pub enum Verdict {
    /// Shorter than an RTP header.
    Malformed,
    /// From before the epoch's first packet.
    BeforeEpoch,
    /// Its generation has left the window.
    Behind,
    /// Its generation is more than `seek_cap` steps ahead.
    TooFar,
    /// Its generation is in the window.
    Cached { generation: u64, index: Option<u64> },
    /// Its generation is ahead by `jump` steps.
    Ahead { generation: u64, index: Option<u64>, jump: u64 },
}

/// How many ratchet steps generation `g` demands. Before the first packet,
/// reaching `g` means deriving the generations `0..=g`.
pub open spec fn jump_to(frontier: Option<u64>, g: u64) -> int {
    match frontier {
        Some(f) => g - f,
        None => g + 1,
    }
}

/// Where a packet falls: the generation that its header maps to, held against
/// the window and the cap.
pub open spec fn judge(s: ReceiverState, packet: Seq<u8>) -> Verdict {
    let seq = crate::transport::rtp::header_seq(packet);
    let ts = crate::transport::rtp::header_timestamp(packet);
    let extended = crate::receiver::index_recovery::extended_index(s.highest, seq);
    let index = if s.scheme.counts_packets() { Some(extended) } else { None };
    if packet.len() < RTP_HEADER_LEN {
        Verdict::Malformed
    } else {
        match s.scheme.generation(ts, extended) {
            None => Verdict::BeforeEpoch,
            Some(g) => if s.frontier matches Some(f) && g <= f {
                if s.frontier->0 - g >= s.window {
                    Verdict::Behind
                } else {
                    Verdict::Cached { generation: g, index }
                }
            } else if jump_to(s.frontier, g) > s.seek_cap {
                Verdict::TooFar
            } else {
                Verdict::Ahead { generation: g, index, jump: jump_to(s.frontier, g) as u64 }
            },
        }
    }
}

/// The generation whose key a verdict asks for.
pub open spec fn wanted(v: Verdict) -> Option<u64> {
    match v {
        Verdict::Cached { generation, .. } => Some(generation),
        Verdict::Ahead { generation, .. } => Some(generation),
        _ => None,
    }
}

impl ReceiverState {
    /// What a packet needs to be judged: the scheme divides by no zero, the
    /// counters have room, and a packet that may be decrypted is not from
    /// before the ratchet's first generation, nor from the last generation
    /// that 64 bits can count.
    pub open spec fn takes(self, packet: Seq<u8>) -> bool {
        &&& packet.len() >= RTP_HEADER_LEN ==> self.scheme.divides()
        &&& self.stats.has_room()
        &&& wanted(judge(self, packet)) matches Some(g) ==> self.first <= g < u64::MAX
        &&& judge(self, packet) matches Verdict::Ahead { jump, .. } ==> self.stats.catchup_steps
            + jump <= u64::MAX
    }
}

/// The state after a packet has been judged: a drop is counted, or the packet
/// is with the SRTP session and its key is in the cipher.
pub open spec fn after_begin(s: ReceiverState, packet: Seq<u8>) -> ReceiverState {
    let st = s.stats;
    match judge(s, packet) {
        Verdict::Malformed => ReceiverState {
            stats: RecvStats { drops_auth: (st.drops_auth + 1) as u64, ..st },
            ..s
        },
        Verdict::BeforeEpoch | Verdict::Behind => ReceiverState {
            stats: RecvStats { drops_behind: (st.drops_behind + 1) as u64, ..st },
            ..s
        },
        Verdict::TooFar => ReceiverState {
            stats: RecvStats { drops_seek_cap: (st.drops_seek_cap + 1) as u64, ..st },
            ..s
        },
        Verdict::Cached { generation, index } => {
            let install = s.installed != Some(generation);
            ReceiverState {
                installed: Some(generation),
                in_flight: Some(Flight { generation, index, jump: None }),
                stats: RecvStats {
                    cache_hits: (st.cache_hits + 1) as u64,
                    installs: (st.installs + if install { 1int } else { 0 }) as u64,
                    ..st
                },
                ..s
            }
        },
        Verdict::Ahead { generation, index, jump } => {
            let install = s.installed != Some(generation);
            ReceiverState {
                installed: Some(generation),
                in_flight: Some(Flight { generation, index, jump: Some(jump) }),
                stats: RecvStats {
                    catchup_steps: (st.catchup_steps + jump) as u64,
                    max_catchup: if jump > st.max_catchup { jump } else { st.max_catchup },
                    installs: (st.installs + if install { 1int } else { 0 }) as u64,
                    ..st
                },
                ..s
            }
        },
    }
}

/// What the receiver answers when a packet is handed to it.
pub open spec fn begin_answer(
    s: ReceiverState,
    packet: Seq<u8>,
    r: Result<OpenStep, RecvDrop>,
) -> bool {
    match judge(s, packet) {
        Verdict::Malformed => r == Err::<OpenStep, RecvDrop>(RecvDrop::AuthFail),
        Verdict::BeforeEpoch | Verdict::Behind => r == Err::<OpenStep, RecvDrop>(
            RecvDrop::BehindWindow,
        ),
        Verdict::TooFar => r == Err::<OpenStep, RecvDrop>(RecvDrop::SeekCapExceeded),
        Verdict::Cached { generation, .. } => step_answer(s, generation, r),
        Verdict::Ahead { generation, .. } => step_answer(s, generation, r),
    }
}

/// The answer for a packet of generation `g` that may be decrypted: the key of
/// `g` is handed out unless the cipher already holds it.
pub open spec fn step_answer(s: ReceiverState, g: u64, r: Result<OpenStep, RecvDrop>) -> bool {
    r matches Ok(step) && step.generation == g && match step.install {
        Some(key_salt) => s.installed != Some(g) && key_salt@ == s.key_for(g),
        None => s.installed == Some(g),
    }
}

/// The state after the SRTP session's verdict. Only an authenticated packet
/// moves the frontier and the highest index; a rejected one leaves a count.
pub open spec fn after_finish(s: ReceiverState, outcome: SrtpOutcome) -> ReceiverState {
    let st = s.stats;
    let flight = s.in_flight->0;
    let wasted = (st.catchup_steps_wasted + match flight.jump {
        Some(jump) => jump,
        None => 0,
    }) as u64;
    match outcome {
        SrtpOutcome::Authenticated => ReceiverState {
            frontier: if flight.jump is Some { Some(flight.generation) } else { s.frontier },
            highest: match flight.index {
                Some(index) => Some(crate::receiver::index_recovery::raised(s.highest, index)),
                None => s.highest,
            },
            in_flight: None,
            stats: RecvStats { decrypted: (st.decrypted + 1) as u64, ..st },
            ..s
        },
        SrtpOutcome::Replay => ReceiverState {
            in_flight: None,
            stats: RecvStats {
                drops_replay: (st.drops_replay + 1) as u64,
                catchup_steps_wasted: wasted,
                ..st
            },
            ..s
        },
        SrtpOutcome::AuthFail => ReceiverState {
            in_flight: None,
            stats: RecvStats {
                drops_auth: (st.drops_auth + 1) as u64,
                catchup_steps_wasted: wasted,
                ..st
            },
            ..s
        },
    }
}

/// What the receiver answers once the SRTP session has spoken.
pub open spec fn finish_answer(s: ReceiverState, outcome: SrtpOutcome) -> Result<u64, RecvDrop> {
    match outcome {
        SrtpOutcome::Authenticated => Ok(s.in_flight->0.generation),
        SrtpOutcome::Replay => Err(RecvDrop::SrtpReplay),
        SrtpOutcome::AuthFail => Err(RecvDrop::AuthFail),
    }
}

/// The state after a packet went through the receiver and, where it was let
/// through, the SRTP session.
pub open spec fn unprotected(
    s: ReceiverState,
    packet: Seq<u8>,
    outcome: SrtpOutcome,
) -> ReceiverState {
    let begun = after_begin(s, packet);
    if begun.in_flight is Some {
        after_finish(begun, outcome)
    } else {
        begun
    }
}

/// What the receiver answers to a packet in the end. `outcome` is what the SRTP
/// session makes of it, if it gets that far.
pub open spec fn unprotect_answer(
    s: ReceiverState,
    packet: Seq<u8>,
    outcome: SrtpOutcome,
) -> Result<u64, RecvDrop> {
    match judge(s, packet) {
        Verdict::Malformed => Err(RecvDrop::AuthFail),
        Verdict::BeforeEpoch | Verdict::Behind => Err(RecvDrop::BehindWindow),
        Verdict::TooFar => Err(RecvDrop::SeekCapExceeded),
        _ => finish_answer(after_begin(s, packet), outcome),
    }
}

/// The state after several packets, one after the other.
pub open spec fn unprotected_all(
    s: ReceiverState,
    packets: Seq<(Seq<u8>, SrtpOutcome)>,
) -> ReceiverState
    decreases packets.len(),
{
    if packets.len() == 0 {
        s
    } else {
        unprotected(
            unprotected_all(s, packets.drop_last()),
            packets.last().0,
            packets.last().1,
        )
    }
}

/// What the receiver answers to several packets, one after the other.
pub open spec fn unprotect_answers(
    s: ReceiverState,
    packets: Seq<(Seq<u8>, SrtpOutcome)>,
) -> Seq<Result<u64, RecvDrop>>
    decreases packets.len(),
{
    if packets.len() == 0 {
        Seq::empty()
    } else {
        unprotect_answers(s, packets.drop_last()).push(
            unprotect_answer(
                unprotected_all(s, packets.drop_last()),
                packets.last().0,
                packets.last().1,
            ),
        )
    }
}

/// Whether the receiver takes several packets, one after the other.
pub open spec fn takes_all(s: ReceiverState, packets: Seq<(Seq<u8>, SrtpOutcome)>) -> bool
    decreases packets.len(),
{
    packets.len() > 0 ==> {
        &&& takes_all(s, packets.drop_last())
        &&& unprotected_all(s, packets.drop_last()).takes(packets.last().0)
    }
}

/// The elements that are not marked as extra.
pub open spec fn without_extra<A>(list: Seq<A>, extra: Seq<bool>) -> Seq<A>
    decreases list.len(),
{
    if list.len() == 0 {
        Seq::empty()
    } else {
        let rest = without_extra(list.drop_last(), extra.drop_last());
        if extra.last() {
            rest
        } else {
            rest.push(list.last())
        }
    }
}

/// Whether two receivers hold the same keys and judge every packet alike. They
/// may differ in what they counted and in which key is in the cipher.
pub open spec fn same_keys(a: ReceiverState, b: ReceiverState) -> bool {
    b == (ReceiverState { installed: b.installed, stats: b.stats, ..a })
}

/// The newest generation up to `frontier` that belongs in ring slot `slot`.
spec fn slot_generation(frontier: int, slot: int, k: int) -> int {
    frontier - (frontier - slot) % k
}

/// A generation in the window is the one its slot holds.
proof fn lemma_slot_in_window(frontier: int, g: int, k: int)
    requires
        0 <= g <= frontier,
        frontier - g < k,
    ensures
        0 <= g % k < k,
        slot_generation(frontier, g % k, k) == g,
{
    vstd::arithmetic::div_mod::lemma_fundamental_div_mod(g, k);
    vstd::arithmetic::div_mod::lemma_mod_multiples_vanish(g / k, frontier - g, k);
    vstd::arithmetic::div_mod::lemma_small_mod((frontier - g) as nat, k as nat);
    assert(k * (g / k) + (frontier - g) == frontier - g % k);
}

/// When the frontier moves one generation, one slot moves with it.
proof fn lemma_slot_steps(frontier: int, slot: int, k: int)
    requires
        -1 <= frontier,
        0 <= slot < k,
    ensures
        slot_generation(frontier + 1, slot, k) == if slot == (frontier + 1) % k {
            frontier + 1
        } else {
            slot_generation(frontier, slot, k)
        },
{
    let r = (frontier - slot) % k;
    let q = (frontier - slot) / k;
    vstd::arithmetic::div_mod::lemma_fundamental_div_mod(frontier - slot, k);
    if r + 1 == k {
        assert(frontier + 1 - slot == (q + 1) * k + 0) by (nonlinear_arith)
            requires
                frontier - slot == k * q + r,
                r + 1 == k,
        ;
        vstd::arithmetic::div_mod::lemma_fundamental_div_mod_converse(
            frontier + 1 - slot,
            k,
            q + 1,
            0,
        );
        assert(frontier + 1 == (q + 1) * k + slot);
        vstd::arithmetic::div_mod::lemma_fundamental_div_mod_converse(frontier + 1, k, q + 1, slot);
    } else {
        assert(frontier + 1 - slot == q * k + (r + 1)) by (nonlinear_arith)
            requires
                frontier - slot == k * q + r,
        ;
        vstd::arithmetic::div_mod::lemma_fundamental_div_mod_converse(
            frontier + 1 - slot,
            k,
            q,
            r + 1,
        );
        if slot == (frontier + 1) % k {
            let p = (frontier + 1) / k;
            vstd::arithmetic::div_mod::lemma_fundamental_div_mod(frontier + 1, k);
            assert(frontier + 1 - slot == p * k + 0) by (nonlinear_arith)
                requires
                    frontier + 1 == k * p + slot,
            ;
            vstd::arithmetic::div_mod::lemma_fundamental_div_mod_converse(
                frontier + 1 - slot,
                k,
                p,
                0,
            );
        }
    }
}

/// A slot whose generation lies at or before an earlier frontier held the same
/// generation then.
proof fn lemma_slot_stable(earlier: int, frontier: int, slot: int, k: int)
    requires
        slot_generation(frontier, slot, k) <= earlier <= frontier,
        0 <= slot < k,
    ensures
        slot_generation(earlier, slot, k) == slot_generation(frontier, slot, k),
{
    let r = (frontier - slot) % k;
    let q = (frontier - slot) / k;
    let d = earlier - (frontier - r);
    vstd::arithmetic::div_mod::lemma_fundamental_div_mod(frontier - slot, k);
    assert(earlier - slot == q * k + d) by (nonlinear_arith)
        requires
            frontier - slot == k * q + r,
            d == earlier - (frontier - r),
    ;
    vstd::arithmetic::div_mod::lemma_fundamental_div_mod_converse(earlier - slot, k, q, d);
}

/// The result of ratcheting forward to a packet's generation, held aside until
/// that packet authenticates.
struct PendingCatchup {
    /// The ratchet after the advance.
    ratchet: StreamRatchet,
    /// The newly derived `(generation, key and salt)` pairs that the window
    /// will hold.
    derived: Vec<(u64, KeySalt)>,
    /// How many steps this catch-up took.
    jump: u64,
}

/// A packet that is with the SRTP session.
struct PendingPacket {
    generation: u64,
    index: Option<u64>,
    catchup: Option<PendingCatchup>,
}

/// Receiver-side keys of one stream: a bounded window of generation keys. One
/// instance handles one inbound SSRC.
pub struct ReceiverKeyManager {
    ssrc: u32,
    scheme: GenerationScheme,
    recovery: IndexRecovery,
    ratchet: StreamRatchet,
    crypto: RustCrypto,
    /// Ring of the last K generation keys: slot `g % K` holds `(g, key and
    /// salt)`, and older entries are overwritten.
    ring: Vec<Option<(u64, KeySalt)>>,
    /// Highest generation reached; `None` before the first packet.
    frontier: Option<u64>,
    /// Generation whose key is in the cipher.
    installed: Option<u64>,
    /// Most ratchet steps one packet may demand.
    seek_cap: u64,
    /// Replay window of the SRTP session.
    replay_window: u64,
    stats: RecvStats,
    /// The packet that is with the SRTP session.
    pending: Option<PendingPacket>,
    /// The ratchet's first generation and its chain secret.
    origin: Ghost<(u64, Seq<u8>)>,
}

impl View for ReceiverKeyManager {
    type V = ReceiverState;

    closed spec fn view(&self) -> ReceiverState {
        ReceiverState {
            scheme: self.scheme,
            ssrc: self.ssrc,
            window: self.ring@.len(),
            seek_cap: self.seek_cap,
            replay_window: self.replay_window,
            first: self.origin@.0,
            secret: self.origin@.1,
            highest: self.recovery@,
            frontier: self.frontier,
            installed: self.installed,
            stats: self.stats,
            in_flight: match self.pending {
                Some(p) => Some(
                    Flight {
                        generation: p.generation,
                        index: p.index,
                        jump: match p.catchup {
                            Some(c) => Some(c.jump),
                            None => None,
                        },
                    },
                ),
                None => None,
            },
        }
    }
}

/// The state of a receiver that has seen no packet.
pub open spec fn receiver_start(
    scheme: GenerationScheme,
    ssrc: u32,
    secret: Seq<u8>,
    first: u64,
    window: nat,
    seek_cap: u64,
    replay_window: u64,
) -> ReceiverState {
    ReceiverState {
        scheme,
        ssrc,
        window,
        seek_cap,
        replay_window,
        first,
        secret,
        highest: None,
        frontier: None,
        installed: None,
        stats: no_stats(),
        in_flight: None,
    }
}

/// A ring entry holds generation `g` and its key, or nothing where `g` is from
/// before the ratchet's first generation.
spec fn entry_holds(entry: Option<(u64, KeySalt)>, g: int, first: u64, secret: Seq<u8>) -> bool {
    if g >= first {
        entry matches Some(e) && e.0 == g && e.1@ == crate::keying::ratchet::key_salt_after(
            secret,
            (g - first) as nat,
        )
    } else {
        entry is None
    }
}

/// These are the generations `from..` with their keys, in order.
spec fn keys_from(
    derived: Seq<(u64, KeySalt)>,
    from: int,
    first: u64,
    secret: Seq<u8>,
) -> bool {
    forall|i: int|
        0 <= i < derived.len() ==> (#[trigger] derived[i]).0 == from + i && derived[i].1@
            == crate::keying::ratchet::key_salt_after(secret, (from + i - first) as nat)
}

/// The ratchet stands at generation `at` of the chain.
spec fn ratchet_at(ratchet: StreamRatchet, at: int, first: u64, secret: Seq<u8>) -> bool {
    &&& ratchet.wf()
    &&& first <= at
    &&& ratchet.index() == at
    &&& ratchet.secret() == crate::keying::ratchet::secret_after(secret, (at - first) as nat)
}

/// The larger of two numbers.
spec fn larger(a: int, b: int) -> int {
    if a >= b { a } else { b }
}

impl ReceiverKeyManager {
    /// The generation that the ratchet derives next.
    spec fn next_generation(&self) -> int {
        match self.frontier {
            Some(f) => f + 1,
            None => self.origin@.0 as int,
        }
    }

    /// What is held aside for a packet that is with the SRTP session.
    spec fn pending_wf(&self, p: PendingPacket) -> bool {
        let (first, secret) = self.origin@;
        let k = self.ring@.len() as int;
        &&& self.stats.decrypted < u64::MAX
        &&& self.stats.drops_replay < u64::MAX
        &&& self.stats.drops_auth < u64::MAX
        &&& match p.catchup {
            None => self@.in_window(p.generation),
            Some(c) => {
                let from = larger(self.next_generation(), p.generation - k + 1);
                &&& self.next_generation() <= p.generation < u64::MAX
                &&& ratchet_at(c.ratchet, p.generation + 1, first, secret)
                &&& c.derived@.len() == p.generation - from + 1
                &&& keys_from(c.derived@, from, first, secret)
                &&& self.stats.catchup_steps_wasted + c.jump <= self.stats.catchup_steps
            },
        }
    }

    /// The ratchet stands one past the frontier, and each ring slot holds the
    /// newest generation that belongs in it.
    pub closed spec fn wf(&self) -> bool {
        let (first, secret) = self.origin@;
        let k = self.ring@.len() as int;
        &&& k >= 1
        &&& self.frontier is None ==> self.recovery@ is None
        &&& self.frontier matches Some(f) ==> first <= f < u64::MAX
        &&& ratchet_at(self.ratchet, self.next_generation(), first, secret)
        &&& forall|slot: int|
            0 <= slot < k ==> entry_holds(
                #[trigger] self.ring@[slot],
                slot_generation(self.next_generation() - 1, slot, k),
                first,
                secret,
            )
        &&& self.stats.catchup_steps_wasted <= self.stats.catchup_steps
        &&& self.pending matches Some(p) ==> self.pending_wf(p)
    }

    /// The key that the receiver holds for generation `g`, if it holds one.
    pub closed spec fn held_key(&self, g: u64) -> Option<Seq<u8>> {
        match self.ring@[(g as int) % (self.ring@.len() as int)] {
            Some(e) => if e.0 == g { Some(e.1@) } else { None },
            None => None,
        }
    }

    /// Creates the receiver of one stream, with a window of `k` generation
    /// keys and a forward-jump cap of `seek_cap` generations.
    ///
    /// - `k`: how far behind a packet may arrive and still decrypt. Every kept
    ///   key is also forward-secrecy exposure.
    /// - `seek_cap`: how far ahead a packet may jump, that is the most ratchet
    ///   steps one packet can demand. These happen before authentication, so
    ///   it bounds the work that a forged packet can force.
    /// - `replay_window`: the replay window of the SRTP session, in packets.
    pub fn new(
        scheme: GenerationScheme,
        ssrc: u32,
        ratchet: StreamRatchet,
        k: usize,
        seek_cap: u64,
        replay_window: u64,
    ) -> (r: Self)
        requires
            k >= 1,
            ratchet.wf(),
        ensures
            r.wf(),
            r@ == receiver_start(
                scheme,
                ssrc,
                ratchet.secret(),
                ratchet.index(),
                k as nat,
                seek_cap,
                replay_window,
            ),
            r@.scheme == scheme,
            r@.ssrc == ssrc,
            r@.secret == ratchet.secret(),
            r@.first == ratchet.index(),
            r@.window == k,
            r@.seek_cap == seek_cap,
            r@.replay_window == replay_window,
            r@.highest is None,
            r@.frontier is None,
            r@.installed is None,
            r@.in_flight is None,
    {
        let mut ring: Vec<Option<(u64, KeySalt)>> = Vec::new();
        let mut i: usize = 0;
        while i < k
            invariant
                i <= k,
                ring@.len() == i,
                forall|slot: int| 0 <= slot < i ==> ring@[slot] is None,
            decreases k - i,
        {
            ring.push(None);
            i += 1;
        }
        let origin = Ghost((ratchet.index(), ratchet.secret()));
        let r = ReceiverKeyManager {
            ssrc,
            scheme,
            recovery: IndexRecovery::default(),
            ratchet,
            crypto: fresh_crypto(),
            ring,
            frontier: None,
            installed: None,
            seek_cap,
            replay_window,
            stats: RecvStats::default(),
            pending: None,
            origin,
        };
        r
    }

    /// Generation whose key is in the cipher.
    pub fn installed_generation(&self) -> (r: Option<u64>)
        ensures
            r == self@.installed,
    {
        self.installed
    }

    /// Highest generation reached so far.
    pub fn frontier(&self) -> (r: Option<u64>)
        ensures
            r == self@.frontier,
    {
        self.frontier
    }

    /// Everything the receiver did so far.
    pub fn stats(&self) -> (r: &RecvStats)
        ensures
            *r == self@.stats,
    {
        &self.stats
    }

    /// The stream whose packets these are.
    pub fn ssrc(&self) -> (r: u32)
        ensures
            r == self@.ssrc,
    {
        self.ssrc
    }

    /// The replay window that the SRTP session is to use.
    pub fn replay_window(&self) -> (r: u64)
        ensures
            r == self@.replay_window,
    {
        self.replay_window
    }

    /// Ratchets a copy forward to generation `g` and collects the keys that
    /// the window will hold.
    fn catch_up(&self, g: u64, jump: u64) -> (r: PendingCatchup)
        requires
            self.wf(),
            self.next_generation() <= g < u64::MAX,
        ensures
            r.jump == jump,
            ratchet_at(r.ratchet, g + 1, self.origin@.0, self.origin@.1),
            r.derived@.len() == g - larger(self.next_generation(), g - self.ring@.len() + 1) + 1,
            keys_from(
                r.derived@,
                larger(self.next_generation(), g - self.ring@.len() + 1),
                self.origin@.0,
                self.origin@.1,
            ),
    {
        let ghost first = self.origin@.0;
        let ghost secret = self.origin@.1;
        let ghost from = larger(self.next_generation(), g - self.ring@.len() + 1);
        let k: u64 = self.ring.len() as u64;
        let mut ratchet = self.ratchet.clone();
        let mut derived: Vec<(u64, KeySalt)> = Vec::new();
        while ratchet.generation() <= g
            invariant
                g < u64::MAX,
                k == self.ring@.len(),
                first <= from <= g,
                from == larger(self.next_generation(), g - k + 1),
                self.next_generation() <= ratchet.index() <= g + 1,
                ratchet_at(ratchet, ratchet.index() as int, first, secret),
                derived@.len() == larger(0, ratchet.index() - from),
                keys_from(derived@, from, first, secret),
            decreases g + 1 - ratchet.index(),
        {
            let (gg, ks) = ratchet.next_key_salt(&self.crypto);
            if g - gg < k {
                derived.push((gg, ks));
            }
        }
        PendingCatchup { ratchet, derived, jump }
    }

    /// Judges a packet before the SRTP session sees it. `Ok` says which key
    /// the session needs for it, and its verdict is then owed to
    /// [`ReceiverKeyManager::finish_unprotect`]; `Err` says why the packet is
    /// dropped.
    ///
    /// Three things happen: the packet is mapped to its generation, the
    /// generation is held against the window, and its key is looked up or
    /// derived. A derivation works on a copy of the ratchet, so a forged
    /// packet moves nothing.
    pub fn begin_unprotect(&mut self, packet: &[u8]) -> (r: Result<OpenStep, RecvDrop>)
        requires
            old(self).wf(),
            old(self)@.in_flight is None,
            old(self)@.takes(packet@),
        ensures
            final(self).wf(),
            final(self)@ == after_begin(old(self)@, packet@),
            begin_answer(old(self)@, packet@, r),
    {
        if packet.len() < RTP_HEADER_LEN {
            self.stats.drops_auth = self.stats.drops_auth + 1;
            return Err(RecvDrop::AuthFail);
        }
        let seq: u16 = read_be16(packet, 2);
        let ts: u32 = read_be32(packet, 4);

        // the packet's generation, and its index where the scheme counts packets
        let (g, index): (u64, Option<u64>) = match self.scheme {
            GenerationScheme::EpochOnly => (0, None),
            GenerationScheme::Frame { epoch_start_ts, frame_period } => (
                frame_generation(ts, epoch_start_ts, frame_period),
                None,
            ),
            GenerationScheme::Packet { base } => {
                let index: u64 = self.recovery.recover(seq);
                if index < base {
                    self.stats.drops_behind = self.stats.drops_behind + 1;
                    return Err(RecvDrop::BehindWindow);
                }
                (index - base, Some(index))
            },
            GenerationScheme::EveryN { base, n } => {
                let index: u64 = self.recovery.recover(seq);
                if index < base {
                    self.stats.drops_behind = self.stats.drops_behind + 1;
                    return Err(RecvDrop::BehindWindow);
                }
                ((index - base) / n as u64, Some(index))
            },
        };

        let len: usize = self.ring.len();
        let k: u64 = len as u64;
        let behind: bool = match self.frontier {
            Some(f) => g <= f,
            None => false,
        };
        let (key_salt, catchup): (KeySalt, Option<PendingCatchup>) = if behind {
            let f: u64 = match self.frontier {
                Some(f) => f,
                None => 0,
            };
            if f - g >= k {
                self.stats.drops_behind = self.stats.drops_behind + 1;
                return Err(RecvDrop::BehindWindow);
            }
            proof {
                lemma_slot_in_window(f as int, g as int, k as int);
            }
            let slot: usize = (g % k) as usize;
            let entry = self.ring[slot];
            match entry {
                Some(e) => {
                    self.stats.cache_hits = self.stats.cache_hits + 1;
                    (e.1, None)
                },
                None => {
                    assert(false);
                    return Err(RecvDrop::BehindWindow);
                },
            }
        } else {
            let jump: u64 = match self.frontier {
                Some(f) => g - f,
                None => g + 1,
            };
            if jump > self.seek_cap {
                self.stats.drops_seek_cap = self.stats.drops_seek_cap + 1;
                return Err(RecvDrop::SeekCapExceeded);
            }
            let caught = self.catch_up(g, jump);
            self.stats.catchup_steps = self.stats.catchup_steps + jump;
            if jump > self.stats.max_catchup {
                self.stats.max_catchup = jump;
            }
            let key_salt = caught.derived[caught.derived.len() - 1].1;
            (key_salt, Some(caught))
        };

        // the cipher holds one key at a time
        let held: bool = match self.installed {
            Some(i) => i == g,
            None => false,
        };
        let install: Option<KeySalt> = if held { None } else { Some(key_salt) };
        if !held {
            self.installed = Some(g);
            self.stats.installs = self.stats.installs + 1;
        }
        self.pending = Some(PendingPacket { generation: g, index, catchup });
        Ok(OpenStep { generation: g, install })
    }

    /// Folds freshly derived keys into the ring, overwriting the keys that
    /// leave the window.
    fn adopt(&mut self, g: u64, caught: PendingCatchup)
        requires
            old(self).wf(),
            old(self).pending is None,
            old(self).next_generation() <= g < u64::MAX,
            ratchet_at(caught.ratchet, g + 1, old(self).origin@.0, old(self).origin@.1),
            caught.derived@.len() == g - larger(
                old(self).next_generation(),
                g - old(self).ring@.len() + 1,
            ) + 1,
            keys_from(
                caught.derived@,
                larger(old(self).next_generation(), g - old(self).ring@.len() + 1),
                old(self).origin@.0,
                old(self).origin@.1,
            ),
        ensures
            final(self).wf(),
            final(self)@ == (ReceiverState { frontier: Some(g), ..old(self)@ }),
            final(self).pending is None,
    {
        let ghost first = self.origin@.0;
        let ghost secret = self.origin@.1;
        let ghost from = larger(self.next_generation(), g - self.ring@.len() + 1);
        let ghost before = *self;
        let len: usize = self.ring.len();
        let k: u64 = len as u64;
        let mut i: usize = 0;
        while i < caught.derived.len()
            invariant
                i <= caught.derived@.len(),
                k == len,
                k == self.ring@.len(),
                k == before.ring@.len(),
                k >= 1,
                0 <= first <= from,
                from + caught.derived@.len() == g + 1,
                keys_from(caught.derived@, from, first, secret),
                forall|slot: int|
                    0 <= slot < k ==> {
                        let at = slot_generation(from + i - 1, slot, k as int);
                        if at >= from {
                            entry_holds(#[trigger] self.ring@[slot], at, first, secret)
                        } else {
                            self.ring@[slot] == before.ring@[slot]
                        }
                    },
                *self == (ReceiverKeyManager { ring: self.ring, ..before }),
            decreases caught.derived@.len() - i,
        {
            let gg: u64 = caught.derived[i].0;
            let ks: KeySalt = caught.derived[i].1;
            assert(gg == from + i);
            assert(0 <= (gg as int) % (k as int) < k) by {
                vstd::arithmetic::div_mod::lemma_mod_bound(gg as int, k as int);
            }
            let slot: usize = (gg % k) as usize;
            let ghost ring_before = self.ring@;
            self.ring.set(slot, Some((gg, ks)));
            proof {
                assert(slot == (from + i) % (k as int));
                assert(self.ring@ == ring_before.update(slot as int, Some((gg, ks))));
                assert(entry_holds(Some((gg, ks)), from + i, first, secret));
                assert forall|other: int| 0 <= other < k implies {
                    let at = slot_generation(from + i, other, k as int);
                    if at >= from {
                        entry_holds(#[trigger] self.ring@[other], at, first, secret)
                    } else {
                        self.ring@[other] == before.ring@[other]
                    }
                } by {
                    lemma_slot_steps(from + i - 1, other, k as int);
                    if other != slot {
                        assert(self.ring@[other] == ring_before[other]);
                    }
                }
            }
            i += 1;
        }
        self.ratchet = caught.ratchet;
        self.frontier = Some(g);
        proof {
            assert forall|slot: int| 0 <= slot < k implies entry_holds(
                #[trigger] self.ring@[slot],
                slot_generation(g as int, slot, k as int),
                first,
                secret,
            ) by {
                let at = slot_generation(g as int, slot, k as int);
                if at < from {
                    // the slot was passed over, so the catch-up was shorter
                    // than the window and the old entry is still current
                    lemma_slot_stable(before.next_generation() - 1, g as int, slot, k as int);
                    assert(before.ring@[slot] == self.ring@[slot]);
                }
            }
        }
    }

    /// Takes the SRTP session's verdict on the packet that
    /// [`ReceiverKeyManager::begin_unprotect`] let through. An authenticated
    /// packet is delivered: its generation is returned, and only now do the
    /// ratchet, the window and the highest index move. A rejected packet
    /// leaves them untouched.
    pub fn finish_unprotect(&mut self, outcome: SrtpOutcome) -> (r: Result<u64, RecvDrop>)
        requires
            old(self).wf(),
            old(self)@.in_flight is Some,
        ensures
            final(self).wf(),
            final(self)@ == after_finish(old(self)@, outcome),
            r == finish_answer(old(self)@, outcome),
    {
        let taken = self.pending.take();
        let p = match taken {
            Some(p) => p,
            None => {
                assert(false);
                return Err(RecvDrop::AuthFail);
            },
        };
        match outcome {
            SrtpOutcome::Authenticated => {
                let g: u64 = p.generation;
                if let Some(caught) = p.catchup {
                    self.adopt(g, caught);
                }
                if let Some(index) = p.index {
                    self.recovery.update(index);
                }
                self.stats.decrypted = self.stats.decrypted + 1;
                Ok(g)
            },
            SrtpOutcome::Replay => {
                if let Some(caught) = p.catchup {
                    self.stats.catchup_steps_wasted = self.stats.catchup_steps_wasted
                        + caught.jump;
                }
                self.stats.drops_replay = self.stats.drops_replay + 1;
                Err(RecvDrop::SrtpReplay)
            },
            SrtpOutcome::AuthFail => {
                if let Some(caught) = p.catchup {
                    self.stats.catchup_steps_wasted = self.stats.catchup_steps_wasted
                        + caught.jump;
                }
                self.stats.drops_auth = self.stats.drops_auth + 1;
                Err(RecvDrop::AuthFail)
            },
        }
    }

    /// Law: the ratchet steps counted as wasted are part of those counted.
    pub proof fn law_wasted_steps_are_steps(&self)
        requires
            self.wf(),
        ensures
            self@.stats.catchup_steps_wasted <= self@.stats.catchup_steps,
    {
    }

    /// Law: the keys that the receiver holds are exactly those of the window.
    /// A generation that has fallen behind it has no key any more.
    pub proof fn law_window_holds_exactly_its_keys(&self, g: u64)
        requires
            self.wf(),
        ensures
            self.held_key(g) == if self@.in_window(g) { Some(self@.key_for(g)) } else { None },
    {
        let k = self.ring@.len() as int;
        let slot = (g as int) % k;
        let at = slot_generation(self.next_generation() - 1, slot, k);
        assert(entry_holds(self.ring@[slot], at, self.origin@.0, self.origin@.1));
        if self@.in_window(g) {
            lemma_slot_in_window(self.next_generation() - 1, g as int, k);
        }
    }
}

/// Law: the two calls give the answer. A packet that the first call drops has
/// its final answer; for the others the second call, with the SRTP session's
/// outcome, gives it.
pub proof fn law_two_calls_give_the_answer(
    s: ReceiverState,
    packet: Seq<u8>,
    outcome: SrtpOutcome,
    begun: Result<OpenStep, RecvDrop>,
)
    requires
        s.in_flight is None,
        begin_answer(s, packet, begun),
    ensures
        match begun {
            Ok(step) => {
                let after = after_begin(s, packet);
                &&& after.in_flight is Some
                &&& unprotect_answer(s, packet, outcome) == finish_answer(after, outcome)
                &&& unprotected(s, packet, outcome) == after_finish(after, outcome)
            },
            Err(drop) => {
                &&& unprotect_answer(s, packet, outcome) == Err::<u64, RecvDrop>(drop)
                &&& unprotected(s, packet, outcome) == after_begin(s, packet)
            },
        },
{
}

impl ReceiverState {
    /// The counters can count one more packet.
    pub open spec fn can_count(self, packet: Seq<u8>) -> bool {
        &&& self.stats.has_room()
        &&& self.stats.catchup_steps_wasted <= self.stats.catchup_steps
        &&& judge(self, packet) matches Verdict::Ahead { jump, .. } ==> self.stats.catchup_steps
            + jump <= u64::MAX
    }
}

/// Law: a packet that is not delivered moves no keys. Whatever it claims, the
/// window, the frontier and the highest index stay as they were, and the
/// ratchet steps it cost are at most `seek_cap`, all of them counted as
/// wasted.
pub proof fn law_forged_packet_moves_nothing(
    s: ReceiverState,
    packet: Seq<u8>,
    outcome: SrtpOutcome,
)
    requires
        s.in_flight is None,
        unprotect_answer(s, packet, outcome) is Err,
        s.can_count(packet),
    ensures
        ({
            let done = unprotected(s, packet, outcome);
            &&& same_keys(s, done)
            &&& done.stats.decrypted == s.stats.decrypted
            &&& done.stats.catchup_steps - s.stats.catchup_steps
                == done.stats.catchup_steps_wasted - s.stats.catchup_steps_wasted
            &&& 0 <= done.stats.catchup_steps - s.stats.catchup_steps <= s.seek_cap
        }),
{
}

/// Law: packets that are not delivered change nothing for the others. If
/// packets are put in anywhere that the receiver does not deliver (forged,
/// replayed, too old or too far ahead), every other packet gets the answer that
/// it gets without them, and the receiver ends up with the same keys.
pub proof fn law_rejected_packets_leave_the_others(
    s: ReceiverState,
    packets: Seq<(Seq<u8>, SrtpOutcome)>,
    extra: Seq<bool>,
)
    requires
        s.in_flight is None,
        extra.len() == packets.len(),
        forall|i: int|
            0 <= i < packets.len() && extra[i] ==> #[trigger] unprotect_answers(
                s,
                packets,
            )[i] is Err,
    ensures
        without_extra(unprotect_answers(s, packets), extra) == unprotect_answers(
            s,
            without_extra(packets, extra),
        ),
        same_keys(unprotected_all(s, packets), unprotected_all(s, without_extra(packets, extra))),
        unprotected_all(s, packets).in_flight is None,
    decreases packets.len(),
{
    if packets.len() > 0 {
        let rest = packets.drop_last();
        let marks = extra.drop_last();
        let (packet, outcome) = packets.last();
        lemma_answers_len(s, rest);
        assert(unprotect_answers(s, packets).drop_last() =~= unprotect_answers(s, rest));
        assert forall|i: int| 0 <= i < rest.len() && marks[i] implies #[trigger] unprotect_answers(
            s,
            rest,
        )[i] is Err by {
            assert(unprotect_answers(s, packets)[i] == unprotect_answers(s, rest)[i]);
        }
        law_rejected_packets_leave_the_others(s, rest, marks);
        let full = unprotected_all(s, rest);
        let thin = unprotected_all(s, without_extra(rest, marks));
        lemma_same_keys_same_answer(full, thin, packet, outcome);
        if extra.last() {
            assert(unprotect_answers(s, packets)[rest.len() as int] is Err);
        } else {
            let kept = without_extra(packets, extra);
            assert(kept.drop_last() =~= without_extra(rest, marks));
            assert(kept.last() == packets.last());
        }
    }
}

/// There is one answer per packet.
proof fn lemma_answers_len(s: ReceiverState, packets: Seq<(Seq<u8>, SrtpOutcome)>)
    ensures
        unprotect_answers(s, packets).len() == packets.len(),
    decreases packets.len(),
{
    if packets.len() > 0 {
        lemma_answers_len(s, packets.drop_last());
    }
}

/// Receivers with the same keys give the same answer and keep the same keys,
/// also where the packet reaches only one of them and is not delivered.
proof fn lemma_same_keys_same_answer(
    a: ReceiverState,
    b: ReceiverState,
    packet: Seq<u8>,
    outcome: SrtpOutcome,
)
    requires
        same_keys(a, b),
        a.in_flight is None,
    ensures
        unprotect_answer(a, packet, outcome) == unprotect_answer(b, packet, outcome),
        same_keys(unprotected(a, packet, outcome), unprotected(b, packet, outcome)),
        unprotected(a, packet, outcome).in_flight is None,
        unprotect_answer(a, packet, outcome) is Err ==> same_keys(
            unprotected(a, packet, outcome),
            b,
        ),
{
    assert(judge(a, packet) == judge(b, packet));
}

/// Law: every packet gets exactly one verdict. It is delivered, or counted
/// under the one cause of loss that the answer names; no other of these counters
/// moves, and no counter ever falls. A packet shorter than an RTP header leaves
/// nothing but its count.
pub proof fn law_every_packet_counts_once(
    s: ReceiverState,
    packet: Seq<u8>,
    outcome: SrtpOutcome,
)
    requires
        s.in_flight is None,
        s.can_count(packet),
    ensures
        ({
            let before = s.stats;
            let done = unprotected(s, packet, outcome);
            let after = done.stats;
            let answer = unprotect_answer(s, packet, outcome);
            &&& after.packets() == before.packets() + 1
            &&& after.decrypted - before.decrypted == if answer is Ok { 1int } else { 0 }
            &&& after.drops_behind - before.drops_behind == if answer == Err::<u64, RecvDrop>(
                RecvDrop::BehindWindow,
            ) { 1int } else { 0 }
            &&& after.drops_seek_cap - before.drops_seek_cap == if answer == Err::<u64, RecvDrop>(
                RecvDrop::SeekCapExceeded,
            ) { 1int } else { 0 }
            &&& after.drops_replay - before.drops_replay == if answer == Err::<u64, RecvDrop>(
                RecvDrop::SrtpReplay,
            ) { 1int } else { 0 }
            &&& after.drops_auth - before.drops_auth == if answer == Err::<u64, RecvDrop>(
                RecvDrop::AuthFail,
            ) { 1int } else { 0 }
            &&& after.cache_hits >= before.cache_hits
            &&& after.catchup_steps >= before.catchup_steps
            &&& after.catchup_steps_wasted >= before.catchup_steps_wasted
            &&& after.max_catchup >= before.max_catchup
            &&& after.installs >= before.installs
            &&& packet.len() < RTP_HEADER_LEN ==> {
                &&& answer == Err::<u64, RecvDrop>(RecvDrop::AuthFail)
                &&& done == (ReceiverState { stats: after, ..s })
                &&& after == (RecvStats { drops_auth: after.drops_auth, ..before })
            }
        }),
{
}

/// Law: the receiver moves only forward. The frontier and the highest index
/// never fall.
pub proof fn law_frontier_never_falls(s: ReceiverState, packet: Seq<u8>, outcome: SrtpOutcome)
    requires
        s.in_flight is None,
    ensures
        ({
            let done = unprotected(s, packet, outcome);
            &&& s.frontier matches Some(f) ==> (done.frontier matches Some(now) && f <= now)
            &&& s.highest matches Some(h) ==> (done.highest matches Some(now) && h <= now)
        }),
{
}

/// How many generations lie up to the frontier.
pub open spec fn generations_reached(s: ReceiverState) -> int {
    match s.frontier {
        Some(f) => f + 1,
        None => 0,
    }
}

/// Law: every ratchet step is accounted for. After any packets, the steps that
/// were not wasted are the generations up to the frontier, and no single
/// catch-up took more than `seek_cap` steps. A delivered packet's generation has
/// its key in the cipher and is one of the last `window` up to the frontier.
pub proof fn law_catchup_steps_reach_the_frontier(
    scheme: GenerationScheme,
    ssrc: u32,
    secret: Seq<u8>,
    first: u64,
    window: nat,
    seek_cap: u64,
    replay_window: u64,
    packets: Seq<(Seq<u8>, SrtpOutcome)>,
)
    requires
        window >= 1,
        takes_all(
            receiver_start(scheme, ssrc, secret, first, window, seek_cap, replay_window),
            packets,
        ),
    ensures
        ({
            let start = receiver_start(
                scheme,
                ssrc,
                secret,
                first,
                window,
                seek_cap,
                replay_window,
            );
            let s = unprotected_all(start, packets);
            &&& s.in_flight is None
            &&& s.window == window && s.seek_cap == seek_cap
            &&& s.stats.catchup_steps - s.stats.catchup_steps_wasted == generations_reached(s)
            &&& s.stats.max_catchup <= seek_cap
            &&& packets.len() > 0 ==> (unprotect_answers(start, packets).last() matches Ok(g) ==> {
                &&& s.installed == Some(g)
                &&& s.frontier matches Some(f) && 0 <= f - g < window
            })
        }),
    decreases packets.len(),
{
    if packets.len() > 0 {
        law_catchup_steps_reach_the_frontier(
            scheme,
            ssrc,
            secret,
            first,
            window,
            seek_cap,
            replay_window,
            packets.drop_last(),
        );
    }
}

/// Law: a packet of a generation in the window is always let through, and the
/// key handed out for it is that generation's.
pub proof fn law_window_still_decrypts(s: ReceiverState, packet: Seq<u8>, g: u64)
    requires
        packet.len() >= RTP_HEADER_LEN,
        s.scheme.generation(
            crate::transport::rtp::header_timestamp(packet),
            crate::receiver::index_recovery::extended_index(
                s.highest,
                crate::transport::rtp::header_seq(packet),
            ),
        ) == Some(g),
        s.in_window(g),
    ensures
        judge(s, packet) matches Verdict::Cached { generation, .. } && generation == g,
        forall|r: Result<OpenStep, RecvDrop>| #[trigger]
            begin_answer(s, packet, r) ==> step_answer(s, g, r),
{
}

/// Law: the receiver decrypts with the key that the sender encrypted with. For
/// a stream sent in order from generation 0, the key that a receiver with the
/// same seed uses for packet `i` is the one that the sender had installed when
/// it sent the packet.
pub proof fn law_receiver_uses_the_senders_key(
    s: ReceiverState,
    granularity: crate::keying::granularity::Granularity,
    timestamps: Seq<u32>,
    frames: Seq<nat>,
    epoch_start_ts: u32,
    frame_period: u32,
    base: u64,
    i: int,
)
    requires
        s.first == 0,
        s.scheme == crate::receiver::generation::scheme_for(
            granularity,
            epoch_start_ts,
            frame_period,
            base,
        ),
        0 <= i < timestamps.len(),
        base + i <= u64::MAX,
        granularity != crate::keying::granularity::Granularity::EveryN(0),
        granularity is Frame ==> frame_period != 0
            && crate::receiver::generation::frames_in_order(
            timestamps,
            frames,
            epoch_start_ts,
            frame_period,
        ),
    ensures
        s.scheme.generation(timestamps[i], (base + i) as u64) matches Some(g) && s.key_for(g)
            == crate::keying::granularity::after_packets(
            crate::keying::granularity::stream_start(granularity, s.ssrc, s.secret, 0),
            timestamps.take(i + 1),
        ).key_salt,
{
    crate::receiver::generation::law_sender_and_receiver_agree(
        granularity,
        s.ssrc,
        s.secret,
        timestamps,
        frames,
        epoch_start_ts,
        frame_period,
        base,
        i,
    );
    crate::keying::granularity::law_stream_follows_granularity(
        granularity,
        s.ssrc,
        s.secret,
        0,
        timestamps.take(i + 1),
    );
}

/// Law: a packet within reach is always let through. If its generation lies ahead
/// by at most `seek_cap` steps, the key of just that generation is handed out,
/// unless the cipher holds it already.
pub proof fn law_reachable_packet_is_let_through(
    s: ReceiverState,
    packet: Seq<u8>,
    g: u64,
    r: Result<OpenStep, RecvDrop>,
)
    requires
        packet.len() >= 12,
        s.scheme.generation(
            crate::bytes::u32_at(packet, 4),
            crate::receiver::index_recovery::extended_index(
                s.highest,
                crate::bytes::u16_at(packet, 2),
            ),
        ) == Some(g),
        match s.frontier {
            Some(f) => f < g && g - f <= s.seek_cap,
            None => g + 1 <= s.seek_cap,
        },
        begin_answer(s, packet, r),
    ensures
        r matches Ok(step) && {
            &&& step.generation == g
            &&& s.installed == Some(g) ==> step.install is None
            &&& s.installed != Some(g) ==> (step.install matches Some(key_salt) && key_salt@
                == crate::keying::ratchet::key_salt_of(
                crate::keying::ratchet::secret_after(s.secret, (g - s.first) as nat),
            ))
        },
        after_begin(s, packet).in_flight matches Some(flight) && {
            &&& flight.generation == g
            &&& flight.jump matches Some(jump) && jump == match s.frontier {
                Some(f) => g - f,
                None => g + 1,
            }
        },
        after_begin(s, packet).installed == Some(g),
{
}

/// Law: each drop of a packet has its cause, and each cause its drop. A short
/// packet fails; one from before the epoch or from behind the window is behind;
/// one further ahead than the cap is too far; for every other one the SRTP session
/// decides, and what it authenticates is delivered under its own generation.
pub proof fn law_drops_have_their_cause(
    s: ReceiverState,
    packet: Seq<u8>,
    outcome: SrtpOutcome,
)
    requires
        s.in_flight is None,
    ensures
        ({
            let answer = unprotect_answer(s, packet, outcome);
            let found = s.scheme.generation(
                crate::bytes::u32_at(packet, 4),
                crate::receiver::index_recovery::extended_index(
                    s.highest,
                    crate::bytes::u16_at(packet, 2),
                ),
            );
            let behind = found is None || (s.frontier matches Some(f) && found->0 <= f && f
                - found->0 >= s.window);
            let too_far = found is Some && match s.frontier {
                Some(f) => found->0 > f && found->0 - f > s.seek_cap,
                None => found->0 + 1 > s.seek_cap,
            };
            &&& packet.len() < 12 ==> answer == Err::<u64, RecvDrop>(RecvDrop::AuthFail)
            &&& packet.len() >= 12 ==> {
                &&& answer == Err::<u64, RecvDrop>(RecvDrop::BehindWindow) <==> behind
                &&& answer == Err::<u64, RecvDrop>(RecvDrop::SeekCapExceeded) <==> too_far
                &&& !behind && !too_far ==> answer == match outcome {
                    SrtpOutcome::Authenticated => Ok::<u64, RecvDrop>(found->0),
                    SrtpOutcome::Replay => Err(RecvDrop::SrtpReplay),
                    SrtpOutcome::AuthFail => Err(RecvDrop::AuthFail),
                }
            }
        }),
{
}

/// Law: a delivered packet moves the receiver to the farthest point it has seen.
/// The frontier is then the higher of the old one and the packet's generation, and
/// the highest index, where packets are counted, that of the two indexes.
pub proof fn law_delivery_moves_to_the_farthest(
    s: ReceiverState,
    packet: Seq<u8>,
    outcome: SrtpOutcome,
)
    requires
        s.in_flight is None,
        unprotect_answer(s, packet, outcome) is Ok,
    ensures
        ({
            let done = unprotected(s, packet, outcome);
            let g = unprotect_answer(s, packet, outcome)->Ok_0;
            let index = crate::receiver::index_recovery::extended_index(
                s.highest,
                crate::bytes::u16_at(packet, 2),
            );
            let counts = s.scheme is Packet || s.scheme is EveryN;
            &&& done.frontier == match s.frontier {
                Some(f) => if f >= g { Some(f) } else { Some(g) },
                None => Some(g),
            }
            &&& counts ==> done.highest == match s.highest {
                Some(h) => if h >= index { Some(h) } else { Some(index) },
                None => Some(index),
            }
            &&& !counts ==> done.highest == s.highest
            &&& done.installed == Some(g)
            &&& done.scheme == s.scheme && done.ssrc == s.ssrc && done.window == s.window
            &&& done.seek_cap == s.seek_cap && done.first == s.first && done.secret == s.secret
        }),
{
}

/// Law: what letting a packet through costs. A key from the window is a hit and
/// costs no step; one ahead costs the steps up to it; a key is installed exactly
/// where the cipher does not hold it.
pub proof fn law_let_through_is_accounted(s: ReceiverState, packet: Seq<u8>)
    requires
        s.can_count(packet),
        s.in_flight is None,
        after_begin(s, packet).in_flight is Some,
    ensures
        ({
            let after = after_begin(s, packet);
            let g = after.in_flight->0.generation;
            let steps = match s.frontier {
                Some(f) => if g > f { g - f } else { 0 },
                None => g + 1,
            };
            &&& after.stats.cache_hits == s.stats.cache_hits + if steps == 0 { 1int } else { 0 }
            &&& after.stats.catchup_steps == s.stats.catchup_steps + steps
            &&& after.stats.max_catchup >= steps && after.stats.max_catchup >= s.stats.max_catchup
            &&& after.stats.max_catchup == steps || after.stats.max_catchup == s.stats.max_catchup
            &&& after.stats.installs == s.stats.installs + if s.installed == Some(g) {
                0int
            } else {
                1
            }
            &&& after.frontier == s.frontier && after.highest == s.highest
        }),
{
}

} // verus!
