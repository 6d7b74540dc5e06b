//! Receiver-side mapping from a packet's header to its generation index `g`.
//!
//! Both ends must compute the same `g` for a packet, or they derive different
//! SRTP keys. The sender gets `g` implicitly: it rekeys at each boundary it
//! emits (see [`crate::keying::granularity`]). The receiver sees packets out
//! of order, so it computes `g` from each packet's header alone.
//!
//! Frame-level keying reads the RTP timestamp, which both ends share. A
//! per-packet `g` comes from the sequence number instead, so it needs the
//! index at which the epoch started, and
//! [`crate::receiver::index_recovery::IndexRecovery`] to unwrap the 16-bit
//! sequence number.

use vstd::prelude::*;

use crate::keying::granularity::Granularity;

verus! {

/// How a packet is mapped to its generation index `g`: one variant per keying
/// granularity, with the reference points that the receiver needs.
#[derive(Debug, Clone, Copy)]
pub enum GenerationScheme {
    /// One key for the whole epoch: every packet is generation 0.
    EpochOnly,
    /// One key per video frame, counted by the RTP timestamp.
    Frame {
        /// Timestamp of the epoch's first frame.
        epoch_start_ts: u32,
        /// RTP timestamp ticks per frame (clock rate / frame rate).
        frame_period: u32,
    },
    /// One key per packet: `g` is the extended index less `base`.
    Packet {
        /// Extended index of the epoch's first packet.
        base: u64,
    },
    /// One key per `n` consecutive packets.
    EveryN {
        /// Extended index of the epoch's first packet.
        base: u64,
        /// Packets that share one generation.
        n: u32,
    },
}

/// The frame of the epoch that a timestamp belongs to. The distance from the
/// epoch's first frame wraps like the timestamp itself.
pub open spec fn frame_of(ts: u32, epoch_start_ts: u32, frame_period: u32) -> u64 {
    (((ts - epoch_start_ts) % 0x1_0000_0000) / frame_period as int) as u64
}

/// The receiver-side scheme that matches a sender's granularity.
pub open spec fn scheme_for(
    granularity: Granularity,
    epoch_start_ts: u32,
    frame_period: u32,
    base: u64,
) -> GenerationScheme {
    match granularity {
        Granularity::EpochOnly => GenerationScheme::EpochOnly,
        Granularity::Frame => GenerationScheme::Frame { epoch_start_ts, frame_period },
        Granularity::Packet => GenerationScheme::Packet { base },
        Granularity::EveryN(n) => GenerationScheme::EveryN { base, n },
    }
}

impl GenerationScheme {
    /// The scheme divides by no zero.
    pub open spec fn divides(self) -> bool {
        match self {
            GenerationScheme::Frame { epoch_start_ts, frame_period } => frame_period != 0,
            GenerationScheme::EveryN { base, n } => n != 0,
            _ => true,
        }
    }

    /// Whether the scheme reads the sequence number, and so needs the extended
    /// index.
    pub open spec fn counts_packets(self) -> bool {
        self is Packet || self is EveryN
    }

    /// The generation of a packet with timestamp `ts` at the extended index
    /// `index`; `None` for a packet from before the epoch's first one.
    pub open spec fn generation(self, ts: u32, index: u64) -> Option<u64> {
        match self {
            GenerationScheme::EpochOnly => Some(0u64),
            GenerationScheme::Frame { epoch_start_ts, frame_period } => Some(
                frame_of(ts, epoch_start_ts, frame_period),
            ),
            GenerationScheme::Packet { base } => if index < base {
                None
            } else {
                Some((index - base) as u64)
            },
            GenerationScheme::EveryN { base, n } => if index < base {
                None
            } else {
                Some(((index - base) / n as int) as u64)
            },
        }
    }

    /// Builds the receiver-side scheme that matches a sender's granularity,
    /// filling in the reference points.
    pub fn for_granularity(
        granularity: Granularity,
        epoch_start_ts: u32,
        frame_period: u32,
        base: u64,
    ) -> (r: Self)
        ensures
            r == scheme_for(granularity, epoch_start_ts, frame_period, base),
    {
        match granularity {
            Granularity::EpochOnly => GenerationScheme::EpochOnly,
            Granularity::Frame => GenerationScheme::Frame { epoch_start_ts, frame_period },
            Granularity::Packet => GenerationScheme::Packet { base },
            Granularity::EveryN(n) => GenerationScheme::EveryN { base, n },
        }
    }
}

/// Frame-level generation index `g`: which frame of the current epoch a packet
/// belongs to.
///
/// `frame_period` is how many ticks the timestamp advances from one frame to
/// the next, for instance 90000 / 60 = 1500 at 60 frames a second. The
/// distance from the epoch's first frame is taken modulo 2^32, so it stays
/// right across a timestamp rollover within the epoch.
pub fn frame_generation(ts: u32, epoch_start_ts: u32, frame_period: u32) -> (r: u64)
    requires
        frame_period != 0,
    ensures
        r == frame_of(ts, epoch_start_ts, frame_period),
{
    let elapsed: u32 = ts.wrapping_sub(epoch_start_ts);
    (elapsed / frame_period) as u64
}

/// Law: every timestamp within one frame period of a frame's start maps to
/// that frame, for as many frames as the 32-bit timestamp tells apart.
pub proof fn law_frame_generation_counts_frames(
    epoch_start_ts: u32,
    frame_period: u32,
    frame: nat,
    ticks: nat,
)
    requires
        frame_period != 0,
        ticks < frame_period,
        frame * frame_period + ticks <= u32::MAX,
    ensures
        frame_of(
            ((epoch_start_ts + frame * frame_period + ticks) % 0x1_0000_0000) as u32,
            epoch_start_ts,
            frame_period,
        ) == frame,
{
    let away = frame * frame_period + ticks;
    let ts = ((epoch_start_ts + away) % 0x1_0000_0000) as u32;
    assert((ts - epoch_start_ts) % 0x1_0000_0000 == away);
    vstd::arithmetic::div_mod::lemma_fundamental_div_mod_converse(
        away as int,
        frame_period as int,
        frame as int,
        ticks as int,
    );
}

/// A video stream's timestamps: packet `j` belongs to frame `frames[j]`, the
/// frames are sent in order and none is left out, and they stay within what
/// the 32-bit timestamp tells apart.
pub open spec fn frames_in_order(
    timestamps: Seq<u32>,
    frames: Seq<nat>,
    epoch_start_ts: u32,
    frame_period: u32,
) -> bool {
    &&& frames.len() == timestamps.len()
    &&& frames.len() > 0 ==> frames[0] == 0
    &&& forall|j: int|
        0 < j < frames.len() ==> #[trigger] frames[j] == frames[j - 1] || frames[j] == frames[j - 1]
            + 1
    &&& forall|j: int|
        0 <= j < frames.len() ==> {
            &&& #[trigger] timestamps[j] == (epoch_start_ts + frames[j] * frame_period)
                % 0x1_0000_0000
            &&& frames[j] * frame_period <= u32::MAX
        }
}

/// In such a stream the timestamp has changed once per frame begun.
proof fn lemma_changes_count_frames(
    timestamps: Seq<u32>,
    frames: Seq<nat>,
    epoch_start_ts: u32,
    frame_period: u32,
    i: int,
)
    requires
        frame_period != 0,
        frames_in_order(timestamps, frames, epoch_start_ts, frame_period),
        0 <= i < timestamps.len(),
    ensures
        crate::keying::granularity::timestamp_changes(timestamps.take(i + 1)) == frames[i],
    decreases i,
{
    let upto = timestamps.take(i + 1);
    if i > 0 {
        lemma_changes_count_frames(timestamps, frames, epoch_start_ts, frame_period, i - 1);
        assert(upto.drop_last() =~= timestamps.take(i));
        assert(upto[upto.len() - 2] == timestamps[i - 1]);
        assert(upto.last() == timestamps[i]);
        let a = epoch_start_ts + frames[i - 1] * frame_period;
        let b = epoch_start_ts + frames[i] * frame_period;
        if frames[i] == frames[i - 1] + 1 {
            assert(b == a + frame_period) by (nonlinear_arith)
                requires
                    a == epoch_start_ts + frames[i - 1] * frame_period,
                    b == epoch_start_ts + frames[i] * frame_period,
                    frames[i] == frames[i - 1] + 1,
            ;
            assert(timestamps[i] != timestamps[i - 1]);
        }
    }
}

/// Law: both ends agree. For a stream sent in order from generation 0, the
/// generation that the receiver computes from a packet's header and index is
/// the one that the sender had installed when it sent the packet. At frame
/// level the stream's timestamps have to count frames; the others take any.
pub proof fn law_sender_and_receiver_agree(
    granularity: Granularity,
    ssrc: u32,
    secret: Seq<u8>,
    timestamps: Seq<u32>,
    frames: Seq<nat>,
    epoch_start_ts: u32,
    frame_period: u32,
    base: u64,
    i: int,
)
    requires
        0 <= i < timestamps.len(),
        base + i <= u64::MAX,
        granularity != Granularity::EveryN(0),
        granularity is Frame ==> frame_period != 0 && frames_in_order(
            timestamps,
            frames,
            epoch_start_ts,
            frame_period,
        ),
    ensures
        scheme_for(granularity, epoch_start_ts, frame_period, base).generation(
            timestamps[i],
            (base + i) as u64,
        ) matches Some(g) && g == crate::keying::granularity::after_packets(
            crate::keying::granularity::stream_start(granularity, ssrc, secret, 0),
            timestamps.take(i + 1),
        ).generation,
{
    let upto = timestamps.take(i + 1);
    crate::keying::granularity::law_stream_follows_granularity(
        granularity,
        ssrc,
        secret,
        0,
        upto,
    );
    if granularity is Frame {
        lemma_changes_count_frames(timestamps, frames, epoch_start_ts, frame_period, i);
        law_frame_generation_counts_frames(epoch_start_ts, frame_period, frames[i], 0);
    }
}

/// Law: a packet's generation is its group of packets, counted from the epoch's
/// first one: the packet itself, or `n` in a row. Packets from before it have
/// none, and a single key needs no count.
pub proof fn law_packet_generation_counts_packets(base: u64, n: u32, ts: u32, index: u64)
    requires
        n != 0,
    ensures
        (GenerationScheme::EpochOnly).generation(ts, index) == Some(0u64),
        index < base ==> (GenerationScheme::Packet { base }).generation(ts, index) is None
            && (GenerationScheme::EveryN { base, n }).generation(ts, index) is None,
        index >= base ==> {
            &&& (GenerationScheme::Packet { base }).generation(ts, index) matches Some(g) && base + g
                == index
            &&& (GenerationScheme::EveryN { base, n }).generation(ts, index) matches Some(g) && base
                + g * n <= index < base + (g + 1) * n
        },
{
    if index >= base {
        let x = index - base;
        let d = n as int;
        let q = x / d;
        vstd::arithmetic::div_mod::lemma_fundamental_div_mod(x, d);
        assert(q * d <= x < (q + 1) * d) by (nonlinear_arith)
            requires
                x == d * q + x % d,
                0 <= x % d < d,
        ;
        assert(0 <= q <= x) by (nonlinear_arith)
            requires
                x == d * q + x % d,
                0 <= x % d < d,
                0 <= x,
                d >= 1,
        ;
    }
}

} // verus!
