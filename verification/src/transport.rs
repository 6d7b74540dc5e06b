//! The media transport layer the keying schemes plug into.
//!
//! - [`rtp`]: minimal RTP packet construction and parsing (RFC 3550)
//! - [`multicast`]: the multicast group that media is sent to

pub mod multicast;
pub mod rtp;
