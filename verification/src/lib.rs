//! Telnet wire protocol: framing of an arbitrarily fragmented byte stream into
//! data and in-band commands, and the per-connection option negotiation that
//! those commands drive.
//!
//! - [`frame`]: the frames and their encoding on the wire.
//! - [`decoder`]: the first frame of a byte buffer.
//! - [`stream`]: all the frames of a stream, and split-invariance.
//! - [`roundtrip`]: decoding undoes encoding.
//! - [`codec`]: the decoder on a `bytes::BytesMut`.
//! - [`negotiation`]: the option state machine.
//! - [`connection`]: buffer and options of one connection, read by read.
//! - [`scanner`]: a byte-at-a-time view of the same stream.
//!
//! Everything here is verified, but for what is assumed of `bytes::BytesMut`
//! in [`codec`].

pub mod codec;
pub mod connection;
pub mod decoder;
pub mod frame;
pub mod negotiation;
pub mod roundtrip;
pub mod scanner;
pub mod stream;
