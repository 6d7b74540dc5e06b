//! Simulation of realistic delivery: a sender that makes up every packet of a
//! video stream on demand, and a network that reorders and loses them.

/// The simulated network: delay, jitter, loss and dual-path protection.
pub mod network;
/// The simulated sender: the packets of a video stream, by number.
pub mod sender;
