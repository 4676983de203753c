//! A streaming, incremental text codec: characters are encoded to bytes and
//! bytes decoded back to characters chunk by chunk, with resumable failure
//! reporting when a chunk holds data the codec cannot represent.
//!
//! The reference codec is the 7-bit character set: a character encodes to the
//! single byte holding its code point, and only code points up to `0x7f` are
//! representable. The calling convention is the interesting part and is shared
//! by the whole family: feed chunks one after another into a shared sink,
//! inspect the returned error value for the unconsumed remainder on failure,
//! and call finish once at end of stream to flush residual state.

pub mod ascii;
pub mod error;
pub mod writer;
