//! Where SRTP media goes: an IP multicast group.
//!
//! A packet sent to the group's address is delivered to every host that has
//! joined the group.

use vstd::prelude::*;

use crate::text::{decimal_text, joined};

verus! {

/// Multicast group address for SRTP media, from the administratively scoped
/// range 239.0.0.0/8 (RFC 2365).
pub const MULTICAST_ADDR: &'static str = "239.0.0.1";

/// RTP port.
pub const MULTICAST_PORT: u16 = 5004;

/// The full multicast destination as a `host:port` text.
pub fn multicast_dest() -> (r: String)
    ensures
        r@ == MULTICAST_ADDR@ + ":"@ + crate::text::decimal(MULTICAST_PORT as nat),
        r@ == "239.0.0.1"@ + ":"@ + crate::text::decimal(5004),
{
    joined(joined(MULTICAST_ADDR, ":").as_str(), decimal_text(MULTICAST_PORT as u32).as_str())
}

} // verus!
