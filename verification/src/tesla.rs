//! TESLA-style per-sender source authentication.
//!
//! In an MLS group every member holds the SRTP group key, so the AES-GCM tag
//! only proves that some group member sent a packet. TESLA restores per-sender
//! authentication by using time as the asymmetry: each packet carries a MAC
//! under a key that is still secret when the packet arrives and is disclosed
//! some intervals later, once knowing it can no longer help a forger.
//! Receivers keep the packets and verify them when the key is disclosed.

use vstd::prelude::*;

use crate::bytes::{array_at, push_be32, push_slice, read_be32};
use crate::tesla::chain::{ChainKey, TESLA_KEY_LEN};
use crate::tesla::mac::TESLA_MAC_LEN;

/// The one-way key chain.
pub mod chain;
/// The signed starting point of a stream.
pub mod commitment;
/// The TESLA MAC.
pub mod mac;
/// The receiver: keeps delivered packets and verifies them on disclosure.
pub mod receiver;
/// The disclosure schedule and the receiver's accept test.
pub mod schedule;
/// The sender: tags outgoing packets and discloses expired keys.
pub mod sender;

verus! {

/// Wire size of the TESLA authentication extension appended after the SRTP
/// packet: interval (4) || disclosed key (20) || TESLA MAC (10).
pub const TESLA_EXT_LEN: usize = 4 + TESLA_KEY_LEN + TESLA_MAC_LEN;

/// The bytes of an extension.
pub open spec fn extension_bytes(interval: u32, disclosed: Seq<u8>, mac: Seq<u8>) -> Seq<u8> {
    crate::bytes::be32(interval) + disclosed + mac
}

/// The packet in front of an extension.
pub open spec fn extended_packet(data: Seq<u8>) -> Seq<u8> {
    data.subrange(0, data.len() - TESLA_EXT_LEN)
}

/// The interval that an extension names.
pub open spec fn extension_interval(data: Seq<u8>) -> u32 {
    crate::bytes::u32_at(data, data.len() - TESLA_EXT_LEN)
}

/// The key that an extension discloses.
pub open spec fn extension_key(data: Seq<u8>) -> Seq<u8> {
    data.subrange(data.len() - TESLA_EXT_LEN + 4, data.len() - TESLA_MAC_LEN)
}

/// The MAC that an extension carries.
pub open spec fn extension_mac(data: Seq<u8>) -> Seq<u8> {
    data.subrange(data.len() - TESLA_MAC_LEN, data.len() as int)
}

/// Law: stripping the extension that was appended gives back the interval, the
/// key, the MAC and the packet, for every packet that is not empty.
pub proof fn law_extension_roundtrip(
    packet: Seq<u8>,
    interval: u32,
    disclosed: Seq<u8>,
    mac: Seq<u8>,
)
    requires
        packet.len() > 0,
        disclosed.len() == TESLA_KEY_LEN,
        mac.len() == TESLA_MAC_LEN,
    ensures
        ({
            let data = packet + extension_bytes(interval, disclosed, mac);
            &&& data.len() > TESLA_EXT_LEN
            &&& extended_packet(data) == packet
            &&& extension_interval(data) == interval
            &&& extension_key(data) == disclosed
            &&& extension_mac(data) == mac
        }),
{
    let data = packet + extension_bytes(interval, disclosed, mac);
    let at = packet.len() as int;
    assert(extended_packet(data) =~= packet);
    assert(extension_key(data) =~= disclosed);
    assert(extension_mac(data) =~= mac);
    crate::bytes::lemma_be32_roundtrip(interval);
    assert(data[at] == crate::bytes::be32(interval)[0]);
    assert(data[at + 1] == crate::bytes::be32(interval)[1]);
    assert(data[at + 2] == crate::bytes::be32(interval)[2]);
    assert(data[at + 3] == crate::bytes::be32(interval)[3]);
}

/// Law: appending the extension that was stripped gives the datagram back.
pub proof fn law_stripped_extension_roundtrip(data: Seq<u8>)
    requires
        data.len() > TESLA_EXT_LEN,
    ensures
        extended_packet(data) + extension_bytes(
            extension_interval(data),
            extension_key(data),
            extension_mac(data),
        ) == data,
{
    crate::bytes::lemma_be32_of_read(data, data.len() - TESLA_EXT_LEN);
    assert(extended_packet(data) + extension_bytes(
        extension_interval(data),
        extension_key(data),
        extension_mac(data),
    ) =~= data);
}

/// Appends the TESLA authentication extension to a protected packet.
pub fn append_extension(
    buf: &mut Vec<u8>,
    interval: u32,
    disclosed: &ChainKey,
    mac: &[u8; TESLA_MAC_LEN],
)
    ensures
        final(buf)@ == old(buf)@ + extension_bytes(interval, disclosed@, mac@),
{
    push_be32(buf, interval);
    push_slice(buf, disclosed.as_slice());
    push_slice(buf, mac.as_slice());
    assert(buf@ =~= old(buf)@ + extension_bytes(interval, disclosed@, mac@));
}

/// Strips the TESLA extension off a received packet, returning `(interval,
/// disclosed key, MAC)` and leaving the protected packet. `None`, with the
/// packet untouched, exactly where it is too short to carry an extension
/// behind at least one byte.
pub fn split_extension(buf: &mut Vec<u8>) -> (r: Option<(u32, ChainKey, [u8; TESLA_MAC_LEN])>)
    ensures
        match r {
            None => old(buf)@.len() <= TESLA_EXT_LEN && final(buf)@ == old(buf)@,
            Some(ext) => {
                &&& old(buf)@.len() > TESLA_EXT_LEN
                &&& final(buf)@ == extended_packet(old(buf)@)
                &&& ext.0 == extension_interval(old(buf)@)
                &&& ext.1@ == extension_key(old(buf)@)
                &&& ext.2@ == extension_mac(old(buf)@)
            },
        },
{
    if buf.len() <= TESLA_EXT_LEN {
        return None;
    }
    let base: usize = buf.len() - TESLA_EXT_LEN;
    let interval: u32 = read_be32(buf.as_slice(), base);
    let disclosed: ChainKey = array_at(buf.as_slice(), base + 4);
    let mac: [u8; TESLA_MAC_LEN] = array_at(buf.as_slice(), base + 4 + TESLA_KEY_LEN);
    buf.truncate(base);
    Some((interval, disclosed, mac))
}

/// Law: where each part stands in a datagram. The packet comes first, byte for
/// byte; of the 34 bytes behind it the first four are the interval, the next 20
/// the disclosed key, and the last ten the MAC.
pub proof fn law_datagram_layout(data: Seq<u8>)
    requires
        data.len() > 34,
    ensures
        ({
            let n = data.len() - 34;
            &&& extended_packet(data).len() == n
            &&& forall|i: int| 0 <= i < n ==> #[trigger] extended_packet(data)[i] == data[i]
            &&& extension_interval(data) == data[n] * 0x100_0000 + data[n + 1] * 0x1_0000 + data[n
                + 2] * 0x100 + data[n + 3]
            &&& extension_key(data).len() == 20
            &&& forall|i: int| 0 <= i < 20 ==> #[trigger] extension_key(data)[i] == data[n + 4 + i]
            &&& extension_mac(data).len() == 10
            &&& forall|i: int| 0 <= i < 10 ==> #[trigger] extension_mac(data)[i] == data[n + 24 + i]
        }),
{
    crate::bytes::law_reading_is_big_endian(data, data.len() - 34);
}

} // verus!
