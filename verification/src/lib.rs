//! A verified channel-based diagnostic transport.
//!
//! A target device shares a set of fixed-size single-producer /
//! single-consumer ring buffers with an attached debug probe.  The buffers
//! are grouped into named "up" (target to host) and "down" (host to target)
//! channels, described by a control block that the probe discovers by
//! scanning memory for a fixed signature.  Each channel carries either
//! formatted text lines or raw binary frames and applies one of three
//! overflow policies when a write finds too little free space.

pub mod block;
pub mod driver;
pub mod ring;
