//! Append-only output sinks for the codec.
//!
//! An encoder appends bytes to a [`ByteWriter`], a decoder appends characters
//! to a [`StringWriter`]. Both traits expose the data written so far as a
//! mathematical sequence, so that a codec's contract can say exactly what a
//! feed call appended. The size hint is advisory only: an implementation may
//! reserve capacity, but the hint never changes what has been written.

use vstd::prelude::*;

verus! {

/// An append-only sink for encoded bytes.
pub trait ByteWriter {
    /// The bytes written to this sink so far, in order.
    spec fn contents(&self) -> Seq<u8>;

    /// Advisory capacity hint: the sink expects about `n` more units.
    /// Never changes what has been written.
    fn writer_hint(&mut self, n: usize)
        ensures
            final(self).contents() == old(self).contents(),
    ;

    /// Appends one byte to the sink.
    fn write_byte(&mut self, b: u8)
        ensures
            final(self).contents() == old(self).contents().push(b),
    ;
}

/// An append-only sink for decoded characters.
pub trait StringWriter {
    /// The characters written to this sink so far, in order.
    spec fn contents(&self) -> Seq<char>;

    /// Advisory capacity hint: the sink expects about `n` more units.
    /// Never changes what has been written.
    fn writer_hint(&mut self, n: usize)
        ensures
            final(self).contents() == old(self).contents(),
    ;

    /// Appends one character to the sink.
    fn write_char(&mut self, c: char)
        ensures
            final(self).contents() == old(self).contents().push(c),
    ;
}

impl ByteWriter for Vec<u8> {
    open spec fn contents(&self) -> Seq<u8> {
        self@
    }

    fn writer_hint(&mut self, n: usize) {
        self.reserve(n);
    }

    fn write_byte(&mut self, b: u8) {
        self.push(b);
    }
}

/// Relies on String::push: appends the given character to the end of the string.
#[verifier::external_body]
fn push_char(s: &mut String, c: char)
    ensures
        final(s)@ == old(s)@.push(c),
{
    s.push(c);
}

/// Relies on String::reserve: reserves capacity only and leaves the
/// characters of the string unchanged.
#[verifier::external_body]
fn reserve_chars(s: &mut String, n: usize)
    ensures
        final(s)@ == old(s)@,
{
    s.reserve(n);
}

impl StringWriter for String {
    open spec fn contents(&self) -> Seq<char> {
        self@
    }

    fn writer_hint(&mut self, n: usize) {
        reserve_chars(self, n);
    }

    fn write_char(&mut self, c: char) {
        push_char(self, c);
    }
}

} // verus!
