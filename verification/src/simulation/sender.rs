//! The simulated sender: every packet of a media stream (header fields,
//! payload bytes, send time), computed from the packet's number.
//!
//! The stream is uncompressed 1080p video at 60 frames a second. One frame is
//! `FRAME_BYTES` of media, split into packets that all share the frame's RTP
//! timestamp and leave evenly spaced over the frame's duration, as ST 2110-21
//! asks for. Each payload embeds its packet's number, so any decrypted packet
//! can be checked without storing plaintext.

use vstd::prelude::*;

use crate::bytes::push_le64;
use crate::keying::granularity::{Granularity, RekeyingStream};
use crate::keying::ratchet::{KeySalt, StreamRatchet};
use crate::transport::rtp::RtpPacket;

verus! {

/// AES-128-GCM authentication tag length in bytes (RFC 7714): protection
/// appends this to every packet.
pub const GCM_TAG_LEN: usize = 16;

/// Media bytes in one uncompressed 1080p 10-bit 4:2:2 frame (ST 2110-20):
/// 1920 x 1080 x 2.5.
pub const FRAME_BYTES: usize = 1920 * 1080 * 5 / 2;

/// RTP timestamp ticks per frame: 90 kHz clock / 60 frames a second.
pub const FRAME_PERIOD: u32 = 1500;

/// Frames per second of the modeled video.
pub const FPS: u64 = 60;

/// First frame's RTP timestamp.
pub const START_TS: u32 = 0;

/// RTP payload type of the stream: the first dynamic one.
pub const PAYLOAD_TYPE: u8 = 96;

/// Nanoseconds in a second.
pub const NS_PER_SECOND: u64 = 1_000_000_000;

/// The blueprint of one packet stream: its fixed shape, and one method per
/// packet property that computes it from the packet's number.
#[derive(Clone, Copy, Debug)]
pub struct StreamModel {
    payload_size: usize,
    /// Packets per frame.
    ppf: u64,
    ssrc: u32,
}

/// Packets per frame at a payload size: as many whole payloads as a frame has,
/// and at least one.
pub open spec fn packets_in_frame(payload_size: usize) -> nat {
    let n = FRAME_BYTES as nat / (payload_size as nat);
    if n >= 1 { n } else { 1 }
}

/// What a stream's shape is.
pub struct StreamShape {
    pub payload_size: usize,
    pub ssrc: u32,
}

impl StreamShape {
    /// The payload has room for the packet number.
    pub open spec fn valid(self) -> bool {
        self.payload_size >= 8
    }

    /// Packets per frame.
    pub open spec fn ppf(self) -> nat {
        packets_in_frame(self.payload_size)
    }

    /// The frame that packet `i` belongs to.
    pub open spec fn frame(self, i: nat) -> nat {
        i / self.ppf()
    }

    /// RTP timestamp of packet `i`: that of its frame, modulo 2^32.
    pub open spec fn timestamp(self, i: nat) -> u32 {
        ((START_TS + self.frame(i) * FRAME_PERIOD) % 0x1_0000_0000) as u32
    }

    /// Send time of packet `i` in nanoseconds: frame `f` starts at `f / 60`
    /// seconds, and its packets are spread evenly over the frame.
    pub open spec fn send_ns(self, i: nat) -> nat {
        self.frame(i) * (NS_PER_SECOND as nat) / (FPS as nat) + (i % self.ppf()) * (
        NS_PER_SECOND as nat) / (FPS as nat * self.ppf())
    }

    /// Payload of packet `i`: the packet number, then zeros.
    pub open spec fn payload(self, i: u64) -> Seq<u8> {
        crate::bytes::le64(i) + Seq::new((self.payload_size - 8) as nat, |j: int| 0u8)
    }

    /// The plaintext packet `i`.
    pub open spec fn packet(self, i: u64) -> crate::transport::rtp::RtpFields {
        crate::transport::rtp::RtpFields {
            payload_type: PAYLOAD_TYPE,
            sequence_number: (i % 0x1_0000) as u16,
            timestamp: self.timestamp(i as nat),
            ssrc: self.ssrc,
            payload: self.payload(i),
        }
    }
}

/// Packets per frame never exceed what the smallest payload gives.
pub proof fn lemma_ppf_bounds(shape: StreamShape)
    requires
        shape.valid(),
    ensures
        1 <= shape.ppf() <= 648_000,
{
    let p = shape.payload_size as int;
    let n = FRAME_BYTES as int / p;
    vstd::arithmetic::div_mod::lemma_fundamental_div_mod(FRAME_BYTES as int, p);
    assert(n <= 648_000) by (nonlinear_arith)
        requires
            5_184_000 == p * n + 5_184_000int % p,
            0 <= 5_184_000int % p,
            p >= 8,
    ;
}

/// Adding at least one divisor raises the quotient.
proof fn lemma_quotient_rises(x: int, c: int, d: int)
    requires
        0 <= x,
        0 < d <= c,
    ensures
        x / d < (x + c) / d,
{
    vstd::arithmetic::div_mod::lemma_div_is_ordered(x + d, x + c, d);
    vstd::arithmetic::div_mod::lemma_div_plus_one(x, d);
}

/// Law: packets leave one after the other. Each is sent strictly later than
/// every one before it, within a frame and across frames.
pub proof fn law_send_times_increase(shape: StreamShape, i: nat, j: nat)
    requires
        shape.valid(),
        i < j,
    ensures
        shape.send_ns(i) < shape.send_ns(j),
    decreases j - i,
{
    lemma_next_leaves_later(shape, (j - 1) as nat);
    if i + 1 < j {
        law_send_times_increase(shape, i, (j - 1) as nat);
    }
}

/// Each packet is sent strictly later than the one before it.
proof fn lemma_next_leaves_later(shape: StreamShape, i: nat)
    requires
        shape.valid(),
    ensures
        shape.send_ns(i) < shape.send_ns(i + 1),
{
    lemma_ppf_bounds(shape);
    let n = shape.ppf() as int;
    let f = i as int / n;
    let p = i as int % n;
    let d = 60 * n;
    vstd::arithmetic::div_mod::lemma_fundamental_div_mod(i as int, n);
    if p + 1 < n {
        assert(i + 1 == f * n + (p + 1)) by (nonlinear_arith)
            requires
                i == n * f + p,
        ;
        vstd::arithmetic::div_mod::lemma_fundamental_div_mod_converse((i + 1) as int, n, f, p + 1);
        lemma_quotient_rises(p * 1_000_000_000, 1_000_000_000, d);
    } else {
        assert(i + 1 == (f + 1) * n + 0) by (nonlinear_arith)
            requires
                i == n * f + p,
                p + 1 == n,
        ;
        vstd::arithmetic::div_mod::lemma_fundamental_div_mod_converse((i + 1) as int, n, f + 1, 0);
        // the last packet of a frame leaves before the frame's whole
        // nanoseconds are over
        let x = p * 1_000_000_000;
        assert(x < d * 16_666_666) by (nonlinear_arith)
            requires
                x == p * 1_000_000_000,
                p + 1 == n,
                d == 60 * n,
                n <= 648_000,
        ;
        vstd::arithmetic::div_mod::lemma_fundamental_div_mod(x, d);
        let q = x / d;
        assert(q < 16_666_666) by (nonlinear_arith)
            requires
                x == d * q + x % d,
                0 <= x % d,
                x < d * 16_666_666,
                d > 0,
        ;
        assert(0int * 1_000_000_000 / d == 0) by {
            vstd::arithmetic::div_mod::lemma_div_basics(d);
        }
    }
}

/// Law: no two packets have the same payload.
pub proof fn law_payloads_are_unique(shape: StreamShape, i: u64, j: u64)
    requires
        shape.valid(),
        shape.payload(i) == shape.payload(j),
    ensures
        i == j,
{
    assert(shape.payload(i).subrange(0, 8) =~= crate::bytes::le64(i));
    assert(shape.payload(j).subrange(0, 8) =~= crate::bytes::le64(j));
    crate::bytes::lemma_le64_injective(i, j);
}

/// Law: the stream's timestamps count its frames. In the first `n` packets,
/// packet `i` belongs to frame `i / ppf`, the frames follow each other without
/// a gap, and the receiver can tell them apart as long as 32 bits of timestamp
/// last.
pub proof fn law_timestamps_count_frames(shape: StreamShape, n: nat)
    requires
        shape.valid(),
        shape.frame(n) * FRAME_PERIOD <= u32::MAX,
    ensures
        crate::receiver::generation::frames_in_order(
            Seq::new(n, |i: int| shape.timestamp(i as nat)),
            Seq::new(n, |i: int| shape.frame(i as nat)),
            START_TS,
            FRAME_PERIOD,
        ),
{
    lemma_ppf_bounds(shape);
    let timestamps = Seq::new(n, |i: int| shape.timestamp(i as nat));
    let frames = Seq::new(n, |i: int| shape.frame(i as nat));
    let ppf = shape.ppf() as int;
    if n > 0 {
        vstd::arithmetic::div_mod::lemma_div_basics(ppf);
        assert(frames[0] == 0);
    }
    assert forall|j: int| 0 < j < frames.len() implies #[trigger] frames[j] == frames[j - 1]
        || frames[j] == frames[j - 1] + 1 by {
        let q = (j - 1) / ppf;
        let r = (j - 1) % ppf;
        vstd::arithmetic::div_mod::lemma_fundamental_div_mod(j - 1, ppf);
        if r + 1 < ppf {
            assert(j == q * ppf + (r + 1)) by (nonlinear_arith)
                requires
                    j - 1 == ppf * q + r,
            ;
            vstd::arithmetic::div_mod::lemma_fundamental_div_mod_converse(j, ppf, q, r + 1);
        } else {
            assert(j == (q + 1) * ppf + 0) by (nonlinear_arith)
                requires
                    j - 1 == ppf * q + r,
                    r + 1 == ppf,
            ;
            vstd::arithmetic::div_mod::lemma_fundamental_div_mod_converse(j, ppf, q + 1, 0);
        }
    }
    assert forall|j: int| 0 <= j < frames.len() implies {
        &&& #[trigger] timestamps[j] == (START_TS + frames[j] * FRAME_PERIOD) % 0x1_0000_0000
        &&& frames[j] * FRAME_PERIOD <= u32::MAX
    } by {
        vstd::arithmetic::div_mod::lemma_div_is_ordered(j, n as int, ppf);
    }
}

impl View for StreamModel {
    type V = StreamShape;

    closed spec fn view(&self) -> StreamShape {
        StreamShape { payload_size: self.payload_size, ssrc: self.ssrc }
    }
}

impl StreamModel {
    /// The payload has room for the packet number, and the packets per frame
    /// are those of the payload size.
    pub closed spec fn wf(&self) -> bool {
        &&& self@.valid()
        &&& self.ppf == self@.ppf()
    }

    /// Creates the stream blueprint for one payload size and SSRC.
    pub fn new(payload_size: usize, ssrc: u32) -> (r: Self)
        requires
            payload_size >= 8,
        ensures
            r.wf(),
            r@ == (StreamShape { payload_size, ssrc }),
    {
        let whole: usize = FRAME_BYTES / payload_size;
        let ppf: u64 = if whole >= 1 { whole as u64 } else { 1 };
        StreamModel { payload_size, ppf, ssrc }
    }

    /// Packets per frame of this stream.
    pub fn packets_per_frame(&self) -> (r: u64)
        requires
            self.wf(),
        ensures
            r == self@.ppf(),
    {
        self.ppf
    }

    /// Media payload bytes per packet.
    pub fn payload_size(&self) -> (r: usize)
        ensures
            r == self@.payload_size,
    {
        self.payload_size
    }

    /// The SSRC of the stream.
    pub fn ssrc(&self) -> (r: u32)
        ensures
            r == self@.ssrc,
    {
        self.ssrc
    }

    /// RTP timestamp of packet `i`: all packets of a frame share their frame's
    /// timestamp, which advances by `FRAME_PERIOD` per frame and wraps at 32
    /// bits.
    pub fn timestamp(&self, i: u64) -> (r: u32)
        requires
            self.wf(),
        ensures
            r == self@.timestamp(i as nat),
    {
        proof {
            lemma_ppf_bounds(self@);
        }
        let f: u64 = i / self.ppf;
        let low: u64 = f % 0x1_0000_0000;
        proof {
            // only the low 32 bits of the frame number matter
            let high = f / 0x1_0000_0000;
            assert(f * 1500 == low * 1500 + 0x1_0000_0000 * (high * 1500));
            vstd::arithmetic::div_mod::lemma_mod_multiples_vanish(
                high * 1500,
                low * 1500,
                0x1_0000_0000,
            );
        }
        ((START_TS as u64 + low * FRAME_PERIOD as u64) % 0x1_0000_0000) as u32
    }

    /// Send time of packet `i`, in nanoseconds since the stream start.
    pub fn send_ns(&self, i: u64) -> (r: u64)
        requires
            self.wf(),
            self@.frame(i as nat) * NS_PER_SECOND <= u64::MAX,
        ensures
            r == self@.send_ns(i as nat),
    {
        proof {
            lemma_ppf_bounds(self@);
            vstd::arithmetic::div_mod::lemma_mod_bound(i as int, self.ppf as int);
        }
        let f: u64 = i / self.ppf;
        let p: u64 = i % self.ppf;
        assert(p < self.ppf <= 648_000);
        let frame_start: u64 = f * NS_PER_SECOND / FPS;
        let offset: u64 = p * NS_PER_SECOND / (FPS * self.ppf);
        proof {
            assert(offset <= p * 1_000_000_000) by {
                vstd::arithmetic::div_mod::lemma_div_is_ordered_by_denominator(
                    p * 1_000_000_000,
                    1,
                    60 * self.ppf,
                );
            }
        }
        frame_start + offset
    }

    /// Media payload of packet `i`: all zeros, except that the first 8 bytes
    /// hold `i` itself.
    pub fn payload(&self, i: u64) -> (r: Vec<u8>)
        requires
            self.wf(),
        ensures
            r@ == self@.payload(i),
            r@.len() == self@.payload_size,
    {
        let mut payload: Vec<u8> = Vec::new();
        push_le64(&mut payload, i);
        assert(payload@ =~= crate::bytes::le64(i));
        while payload.len() < self.payload_size
            invariant
                8 <= payload@.len() <= self.payload_size,
                payload@ == crate::bytes::le64(i) + Seq::new(
                    (payload@.len() - 8) as nat,
                    |j: int| 0u8,
                ),
            decreases self.payload_size - payload@.len(),
        {
            payload.push(0);
            assert(payload@ =~= crate::bytes::le64(i) + Seq::new(
                (payload@.len() - 8) as nat,
                |j: int| 0u8,
            ));
        }
        payload
    }

    /// The complete plaintext packet `i` (RTP header, then payload), as it is
    /// before protection and after a correct decryption.
    pub fn plain_packet(&self, i: u64) -> (r: Vec<u8>)
        requires
            self.wf(),
        ensures
            r@ == crate::transport::rtp::rtp_wire(self@.packet(i)),
    {
        let packet = RtpPacket {
            payload_type: PAYLOAD_TYPE,
            sequence_number: (i % 0x1_0000) as u16,
            timestamp: self.timestamp(i),
            ssrc: self.ssrc,
            payload: self.payload(i),
        };
        packet.to_bytes()
    }
}

/// The simulated sender: produces the modeled stream's packets in send order,
/// with the key changes that go with them. The ratchet only moves forward, so
/// packets can only be produced one after the other.
pub struct SimulatedSender {
    model: StreamModel,
    crypto: RekeyingStream,
    /// Number of the next packet to produce.
    next_i: u64,
}

impl SimulatedSender {
    /// The stream's shape.
    pub closed spec fn shape(&self) -> StreamShape {
        self.model@
    }

    /// The stream's keying.
    pub closed spec fn keying(&self) -> crate::keying::granularity::RekeyingState {
        self.crypto@
    }

    /// Number of the next packet.
    pub closed spec fn position(&self) -> u64 {
        self.next_i
    }

    pub closed spec fn wf(&self) -> bool {
        &&& self.model.wf()
        &&& self.crypto.wf()
    }

    /// Creates the sender for the given stream, keying with `granularity` from
    /// `ratchet`. A receiver needs the same ratchet seed to derive the same
    /// keys.
    pub fn new(model: StreamModel, granularity: Granularity, ratchet: StreamRatchet) -> (r: Self)
        requires
            model.wf(),
            ratchet.wf(),
            ratchet.index() < u64::MAX,
        ensures
            r.wf(),
            r.shape() == model@,
            r.position() == 0,
            r.keying() == crate::keying::granularity::stream_start(
                granularity,
                model@.ssrc,
                ratchet.secret(),
                ratchet.index() as nat,
            ),
    {
        SimulatedSender {
            model,
            crypto: RekeyingStream::new(granularity, model.ssrc(), ratchet),
            next_i: 0,
        }
    }

    /// Number of the packet that the next call will produce.
    pub fn cursor(&self) -> (r: u64)
        ensures
            r == self.position(),
    {
        self.next_i
    }

    /// The key and salt of the installed generation.
    pub fn installed_key(&self) -> (r: &KeySalt)
        ensures
            r@ == self.keying().key_salt,
    {
        self.crypto.installed_key()
    }

    /// Produces the next packet in send order: its number, its plaintext, and
    /// the key to install in the cipher before it is protected, where it
    /// begins a new generation.
    pub fn next_packet(&mut self) -> (r: (u64, Vec<u8>, Option<KeySalt>))
        requires
            old(self).wf(),
            old(self).position() < u64::MAX,
            old(self).keying().takes(
                old(self).shape().timestamp(old(self).position() as nat),
            ),
        ensures
            final(self).wf(),
            r.0 == old(self).position(),
            r.1@ == crate::transport::rtp::rtp_wire(old(self).shape().packet(r.0)),
            r.2 is Some == crate::keying::granularity::begins_generation(
                old(self).keying(),
                old(self).shape().timestamp(r.0 as nat),
            ),
            r.2 matches Some(key_salt) ==> key_salt@ == final(self).keying().key_salt,
            final(self).shape() == old(self).shape(),
            final(self).position() == old(self).position() + 1,
            final(self).keying() == crate::keying::granularity::after_packet(
                old(self).keying(),
                old(self).shape().timestamp(r.0 as nat),
            ),
    {
        let i: u64 = self.next_i;
        let buf = self.model.plain_packet(i);
        proof {
            crate::transport::rtp::lemma_wire_header(self.model@.packet(i));
        }
        let install = self.crypto.rekey_for(buf.as_slice());
        self.next_i = i + 1;
        (i, buf, install)
    }
}

/// Law: a frame is cut into as many whole payloads as its 5,184,000 bytes hold, and
/// into one where a payload is larger.
pub proof fn law_frame_is_cut_into_whole_payloads(shape: StreamShape)
    requires
        shape.valid(),
    ensures
        shape.payload_size <= 5_184_000 ==> shape.ppf() * shape.payload_size <= 5_184_000 < (
        shape.ppf() + 1) * shape.payload_size,
        shape.payload_size > 5_184_000 ==> shape.ppf() == 1,
{
    let p = shape.payload_size as int;
    let n = 5_184_000int / p;
    vstd::arithmetic::div_mod::lemma_fundamental_div_mod(5_184_000, p);
    assert(n * p <= 5_184_000 < (n + 1) * p) by (nonlinear_arith)
        requires
            5_184_000 == p * n + 5_184_000int % p,
            0 <= 5_184_000int % p < p,
    ;
    if p <= 5_184_000 {
        assert(n >= 1) by (nonlinear_arith)
            requires
                5_184_000 < (n + 1) * p,
                8 <= p <= 5_184_000,
        ;
    } else {
        assert(n < 1) by (nonlinear_arith)
            requires
                n * p <= 5_184_000,
                p > 5_184_000,
        ;
    }
}

/// Law: the `p`-th packet of frame `f`. Its timestamp is 1500 ticks per frame; its
/// frame starts at `f` sixtieths of a second, and it follows after the `p`-th part
/// of one, each rounded down to whole nanoseconds.
pub proof fn law_packet_of_a_frame(shape: StreamShape, f: nat, p: nat)
    requires
        shape.valid(),
        p < shape.ppf(),
    ensures
        ({
            let i = f * shape.ppf() + p;
            let start = shape.send_ns(f * shape.ppf());
            let after = shape.send_ns(i) - start;
            let parts = 60 * shape.ppf();
            &&& shape.frame(i) == f
            &&& shape.timestamp(i) == f * 1500 % 0x1_0000_0000
            &&& start * 60 <= f * 1_000_000_000 < (start + 1) * 60
            &&& after * parts <= p * 1_000_000_000 < (after + 1) * parts
        }),
{
    lemma_ppf_bounds(shape);
    let n = shape.ppf() as int;
    let i = f * n + p;
    vstd::arithmetic::div_mod::lemma_fundamental_div_mod_converse(i, n, f as int, p as int);
    vstd::arithmetic::div_mod::lemma_fundamental_div_mod_converse(f * n, n, f as int, 0);
    let parts = 60 * n;
    let x = p * 1_000_000_000;
    assert(0int * 1_000_000_000 / parts == 0) by {
        vstd::arithmetic::div_mod::lemma_div_basics(parts);
    }
    let start = (f * 1_000_000_000) / 60;
    assert(shape.send_ns((f * n) as nat) == start);
    vstd::arithmetic::div_mod::lemma_fundamental_div_mod(x as int, parts);
    let q = x as int / parts;
    assert(shape.send_ns(i as nat) == start + q);
    assert(q * parts <= x < (q + 1) * parts) by (nonlinear_arith)
        requires
            x == parts * q + x as int % parts,
            0 <= x as int % parts < parts,
    ;
}

/// Law: what packet `i` says. Its payload has the stream's size, spells `i` in its
/// first eight bytes, least significant first, and is zero behind them.
pub proof fn law_packet_carries_its_number(shape: StreamShape, i: u64)
    requires
        shape.valid(),
    ensures
        ({
            let packet = shape.packet(i);
            let body = packet.payload;
            &&& packet.payload_type == 96
            &&& packet.sequence_number == i % 0x1_0000
            &&& packet.timestamp == shape.timestamp(i as nat)
            &&& packet.ssrc == shape.ssrc
            &&& body.len() == shape.payload_size
            &&& (body[7] * 0x100_0000 + body[6] * 0x1_0000 + body[5] * 0x100 + body[4])
                * 0x1_0000_0000 + body[3] * 0x100_0000 + body[2] * 0x1_0000 + body[1] * 0x100
                + body[0] == i
            &&& forall|j: int| 8 <= j < body.len() ==> #[trigger] body[j] == 0
        }),
{
    crate::bytes::law_little_endian_bytes_spell_the_number(0, i);
    let number = crate::bytes::le64(i);
    let body = shape.packet(i).payload;
    assert forall|j: int| 0 <= j < 8 implies #[trigger] body[j] == number[j] by {}
}

} // verus!
