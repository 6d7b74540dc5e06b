//! SafeCast: keying and authentication for protected media streams.
//!
//! An MLS group agrees on one secret per epoch. This library turns that
//! secret into a chain of short-lived SRTP keys, lets a receiver follow the
//! chain through loss and reordering, and adds TESLA source authentication on
//! top.
//!
//! - [`keying`]: from the group's secret to each packet's key
//! - [`receiver`]: following the keys through reordering, loss and gaps
//! - [`tesla`]: telling who in the group sent a packet
//! - [`simulation`]: a modeled stream and a modeled network
//! - [`transport`]: RTP packets and where they go
//! - [`directory`]: the services that clients register with
//! - [`client`]: what a demo client decides
//! - [`crypto`], [`messaging`]: what is taken from outside crates
//! - [`bytes`], [`text`]: encodings

pub mod bytes;
pub mod client;
pub mod crypto;
pub mod directory;
pub mod keying;
pub mod messaging;
pub mod receiver;
pub mod simulation;
pub mod tesla;
pub mod text;
pub mod transport;
