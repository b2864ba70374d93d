//! Length-prefixed message framing for a non-blocking byte stream.
//!
//! A peer sends discrete messages over a stream socket as frames: a short
//! big-endian header that states the total frame length, followed by the
//! payload. The stream delivers bytes in arbitrary chunks, so a frame may
//! arrive split across reads and several frames may arrive in one read.
//! This crate provides the encoder that stamps the header onto an outbound
//! payload, the reassembler that turns the chopped byte stream back into
//! the exact sequence of payloads, and the connection state machine that
//! classifies the outcomes of the non-blocking reads and writes around them.

pub mod codec;
pub mod conn;
pub mod laws;
pub mod reassembly;
