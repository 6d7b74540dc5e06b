//! Minimal RTP packet construction and parsing (RFC 3550).
//!
//! Only the fixed 12-byte header is supported, with no optional fields:
//! version/flags (1) + payload type (1) + sequence number (2) + timestamp (4)
//! + SSRC (4). The version/flags byte is always 0x80: version 2, no padding,
//! no extension, no CSRCs.

use vstd::prelude::*;

use crate::bytes::{push_be16, push_be32, push_slice, read_be16, read_be32};

verus! {

/// Fixed RTP header size in bytes (RFC 3550, section 5.1).
pub const RTP_HEADER_LEN: usize = 12;

/// A minimal RTP packet: the fixed header's fields and the payload.
pub struct RtpPacket {
    pub payload_type: u8,
    pub sequence_number: u16,
    pub timestamp: u32,
    pub ssrc: u32,
    pub payload: Vec<u8>,
}

/// What an [`RtpPacket`] says, with its payload as a sequence.
#[verifier::ext_equal]
pub struct RtpFields {
    pub payload_type: u8,
    pub sequence_number: u16,
    pub timestamp: u32,
    pub ssrc: u32,
    pub payload: Seq<u8>,
}

impl View for RtpPacket {
    type V = RtpFields;

    open spec fn view(&self) -> RtpFields {
        RtpFields {
            payload_type: self.payload_type,
            sequence_number: self.sequence_number,
            timestamp: self.timestamp,
            ssrc: self.ssrc,
            payload: self.payload@,
        }
    }
}

/// The 12 header bytes of a packet with these fields. The payload type takes
/// seven bits; the eighth, the marker, is always off.
pub open spec fn rtp_header(payload_type: u8, seq: u16, ts: u32, ssrc: u32) -> Seq<u8> {
    seq![0x80u8, (payload_type % 0x80) as u8] + crate::bytes::be16(seq) + crate::bytes::be32(ts)
        + crate::bytes::be32(ssrc)
}

/// The wire form of a packet: header, then payload.
pub open spec fn rtp_wire(p: RtpFields) -> Seq<u8> {
    rtp_header(p.payload_type, p.sequence_number, p.timestamp, p.ssrc) + p.payload
}

/// The sequence number in a packet's header (bytes 2 and 3).
pub open spec fn header_seq(packet: Seq<u8>) -> u16 {
    crate::bytes::u16_at(packet, 2)
}

/// The timestamp in a packet's header (bytes 4 to 7).
pub open spec fn header_timestamp(packet: Seq<u8>) -> u32 {
    crate::bytes::u32_at(packet, 4)
}

/// The SSRC in a packet's header (bytes 8 to 11).
pub open spec fn header_ssrc(packet: Seq<u8>) -> u32 {
    crate::bytes::u32_at(packet, 8)
}

/// The fields that the bytes of a packet spell.
pub open spec fn rtp_fields(data: Seq<u8>) -> RtpFields {
    RtpFields {
        payload_type: (data[1] % 0x80) as u8,
        sequence_number: header_seq(data),
        timestamp: header_timestamp(data),
        ssrc: header_ssrc(data),
        payload: data.subrange(RTP_HEADER_LEN as int, data.len() as int),
    }
}

/// The header fields of a packet on the wire are the ones it was built from.
pub proof fn lemma_wire_header(p: RtpFields)
    ensures
        rtp_wire(p).len() == RTP_HEADER_LEN + p.payload.len(),
        header_seq(rtp_wire(p)) == p.sequence_number,
        header_timestamp(rtp_wire(p)) == p.timestamp,
        header_ssrc(rtp_wire(p)) == p.ssrc,
{
}

/// Law: parsing the wire form of a packet gives the packet back, its payload
/// type reduced to the seven bits that the header has for it.
pub proof fn law_wire_roundtrip(p: RtpFields)
    ensures
        rtp_wire(p).len() >= RTP_HEADER_LEN,
        rtp_fields(rtp_wire(p)) == (RtpFields { payload_type: (p.payload_type % 0x80) as u8, ..p }),
{
    lemma_wire_header(p);
    assert(rtp_fields(rtp_wire(p)).payload =~= p.payload);
}

/// Law: writing what was parsed gives the bytes back, with the flags that every
/// written packet has and the marker off. Bytes that a packet was written to come
/// back as they are.
pub proof fn law_parsed_bytes_roundtrip(data: Seq<u8>)
    requires
        data.len() >= RTP_HEADER_LEN,
    ensures
        rtp_wire(rtp_fields(data)) == data.update(0, 0x80).update(1, (data[1] % 0x80) as u8),
        data[0] == 0x80 && data[1] < 0x80 ==> rtp_wire(rtp_fields(data)) == data,
{
    let wire = rtp_wire(rtp_fields(data));
    crate::bytes::lemma_be16_of_read(data, 2);
    crate::bytes::lemma_be32_of_read(data, 4);
    crate::bytes::lemma_be32_of_read(data, 8);
    assert(wire =~= data.update(0, 0x80).update(1, (data[1] % 0x80) as u8));
    if data[0] == 0x80 && data[1] < 0x80 {
        assert(wire =~= data);
    }
}

impl RtpPacket {
    /// Serializes into the wire format: 12-byte header, then payload.
    pub fn to_bytes(&self) -> (r: Vec<u8>)
        ensures
            r@ == rtp_wire(self@),
    {
        let mut buf: Vec<u8> = Vec::new();
        buf.push(0x80);
        buf.push(self.payload_type % 0x80);
        push_be16(&mut buf, self.sequence_number);
        push_be32(&mut buf, self.timestamp);
        push_be32(&mut buf, self.ssrc);
        push_slice(&mut buf, self.payload.as_slice());
        assert(buf@ =~= rtp_wire(self@));
        buf
    }

    /// Parses a packet from wire bytes, assuming no CSRCs and no extension.
    /// `None` exactly when the bytes are shorter than a header.
    pub fn from_bytes(data: &[u8]) -> (r: Option<Self>)
        ensures
            match r {
                Some(p) => data@.len() >= RTP_HEADER_LEN && p@ == rtp_fields(data@),
                None => data@.len() < RTP_HEADER_LEN,
            },
    {
        if data.len() < RTP_HEADER_LEN {
            return None;
        }
        let payload = vstd::slice::slice_to_vec(
            vstd::slice::slice_subrange(data, RTP_HEADER_LEN, data.len()),
        );
        Some(
            RtpPacket {
                payload_type: data[1] % 0x80,
                sequence_number: read_be16(data, 2),
                timestamp: read_be32(data, 4),
                ssrc: read_be32(data, 8),
                payload,
            },
        )
    }
}

/// Law: where each field of a packet stands on the wire, most significant byte
/// first, written and read alike.
pub proof fn law_header_layout(p: RtpFields, data: Seq<u8>)
    requires
        data.len() >= 12,
    ensures
        ({
            let wire = rtp_wire(p);
            &&& wire.len() == 12 + p.payload.len()
            &&& wire[0] == 0x80
            &&& wire[1] == p.payload_type % 0x80
            &&& wire[2] * 0x100 + wire[3] == p.sequence_number
            &&& wire[4] * 0x100_0000 + wire[5] * 0x1_0000 + wire[6] * 0x100 + wire[7] == p.timestamp
            &&& wire[8] * 0x100_0000 + wire[9] * 0x1_0000 + wire[10] * 0x100 + wire[11] == p.ssrc
            &&& forall|i: int| 0 <= i < p.payload.len() ==> wire[12 + i] == #[trigger] p.payload[i]
        }),
        ({
            let read = rtp_fields(data);
            &&& read.payload_type == data[1] % 0x80
            &&& read.sequence_number == data[2] * 0x100 + data[3]
            &&& read.timestamp == data[4] * 0x100_0000 + data[5] * 0x1_0000 + data[6] * 0x100
                + data[7]
            &&& read.ssrc == data[8] * 0x100_0000 + data[9] * 0x1_0000 + data[10] * 0x100
                + data[11]
            &&& read.payload == data.subrange(12, data.len() as int)
        }),
{
    lemma_wire_header(p);
}

} // verus!
