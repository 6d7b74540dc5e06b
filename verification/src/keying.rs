//! Group keying: how an MLS group secret becomes a chain of short-lived
//! SRTP keys.
//!
//! - [`mls`]: members, and the keys that a group exports
//! - [`group`]: forming a group, joining it, moving it to the next epoch
//! - [`ratchet`]: the MLS-seeded per-stream key ratchet (HKDF chain) that
//!   derives generation keys `key_0, key_1, ...` from the exported seed
//! - [`granularity`]: when a stream steps to its next key

pub mod granularity;
pub mod group;
pub mod mls;
pub mod ratchet;
