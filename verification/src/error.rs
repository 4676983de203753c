//! The failure value shared by the encoder and the decoder.

use vstd::prelude::*;

verus! {

/// A failure report from one feed or finish call.
///
/// Everything strictly before the start of `remaining` has already been
/// durably appended to the output sink; the codec never buffers accepted
/// output internally. The error owns copies of the input data it reports, so
/// it stays valid after the input buffer is gone.
pub struct CodecError<Remaining, Problem> {
    /// The suffix of the input that was not consumed. A caller may inspect or
    /// skip the offending unit and resume feeding from here.
    pub remaining: Remaining,
    /// The offending unit itself: the single character (encode) or single
    /// byte (decode) that caused the failure.
    pub problem: Problem,
    /// A human-readable diagnostic. Its text is not part of the stable
    /// contract and must not drive control decisions.
    pub cause: String,
}

/// An encoder's failure: an unrepresentable character. `remaining` starts
/// just after the offending character (the character is reported once, in
/// `problem`, as a one-character string, and not re-offered).
pub type EncoderError = CodecError<String, String>;

/// A decoder's failure: an invalid byte. `remaining` starts just after the
/// offending byte (the byte is reported once, in `problem`, as a one-element
/// sequence, and not re-offered).
pub type DecoderError = CodecError<Vec<u8>, Vec<u8>>;

} // verus!
