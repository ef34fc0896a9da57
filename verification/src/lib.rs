//! A decoder for QOI-style chunked pixel streams.
//!
//! The decoder works on bytes that are already in memory and reconstructs
//! the pixel sequence chunk by chunk. Every executable function carries a
//! contract over a mathematical model of the decoding session, and the
//! laws of the format are proved over that model.

pub mod pixel;
pub mod wrapped;
pub mod chunk;
pub mod model;
pub mod decoder;
pub mod wire;
pub mod stream;
pub mod laws;
pub mod encoder;
