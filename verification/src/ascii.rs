//! The 7-bit reference codec.
//!
//! A character with code point up to `0x7f` encodes to the single byte
//! holding that code point; any other character is unrepresentable. A byte
//! up to `0x7f` decodes to the character with that code point; any other
//! byte is invalid. The codec is stateless: nothing is carried between feed
//! calls, and finish never has anything to flush.

use crate::error::CodecError;
use crate::error::DecoderError;
use crate::error::EncoderError;
use crate::writer::ByteWriter;
use crate::writer::StringWriter;
use vstd::prelude::*;
use vstd::string::StrSliceExecFns;
use vstd::string::StringExecFns;

verus! {

/// A character the codec can represent: its code point fits in 7 bits.
pub open spec fn encodable_char(c: char) -> bool {
    (c as u32) <= 0x7f
}

/// The single byte encoding a representable character: its code point.
pub open spec fn encode_char(c: char) -> u8 {
    c as u8
}

/// A byte that is valid under the codec: its value fits in 7 bits.
pub open spec fn decodable_byte(b: u8) -> bool {
    b <= 0x7f
}

/// The character a valid byte decodes to: the one with that code point.
pub open spec fn decode_byte(b: u8) -> char {
    b as char
}

/// The byte sequence encoding a sequence of representable characters,
/// character by character.
pub open spec fn encode_seq(s: Seq<char>) -> Seq<u8> {
    Seq::new(s.len(), |i: int| encode_char(s[i]))
}

/// The character sequence a sequence of valid bytes decodes to, byte by byte.
pub open spec fn decode_seq(s: Seq<u8>) -> Seq<char> {
    Seq::new(s.len(), |i: int| decode_byte(s[i]))
}

/// How many leading characters of `s` the encoder accepts: the length of the
/// longest prefix made of representable characters only.
pub open spec fn encodable_prefix_len(s: Seq<char>) -> nat
    decreases s.len(),
{
    if s.len() == 0 {
        0
    } else if !encodable_char(s[0]) {
        0
    } else {
        1 + encodable_prefix_len(s.drop_first())
    }
}

/// How many leading bytes of `s` the decoder accepts: the length of the
/// longest prefix made of valid bytes only.
pub open spec fn decodable_prefix_len(s: Seq<u8>) -> nat
    decreases s.len(),
{
    if s.len() == 0 {
        0
    } else if !decodable_byte(s[0]) {
        0
    } else {
        1 + decodable_prefix_len(s.drop_first())
    }
}

/// What `encodable_prefix_len` means index by index: every character before
/// it is representable, and the character at it (if any) is not.
pub proof fn lemma_encodable_prefix_len(s: Seq<char>)
    ensures
        encodable_prefix_len(s) <= s.len(),
        forall|i: int| 0 <= i < encodable_prefix_len(s) ==> encodable_char(#[trigger] s[i]),
        encodable_prefix_len(s) < s.len() ==> !encodable_char(s[encodable_prefix_len(s) as int]),
    decreases s.len(),
{
    if s.len() > 0 && encodable_char(s[0]) {
        lemma_encodable_prefix_len(s.drop_first());
        assert forall|i: int| 0 <= i < encodable_prefix_len(s) implies encodable_char(
            #[trigger] s[i],
        ) by {
            if i > 0 {
                assert(s.drop_first()[i - 1] == s[i]);
            }
        }
        if encodable_prefix_len(s) < s.len() {
            let k = encodable_prefix_len(s) as int;
            assert(s.drop_first()[k - 1] == s[k]);
        }
    }
}

/// What `decodable_prefix_len` means index by index: every byte before it is
/// valid, and the byte at it (if any) is not.
pub proof fn lemma_decodable_prefix_len(s: Seq<u8>)
    ensures
        decodable_prefix_len(s) <= s.len(),
        forall|i: int| 0 <= i < decodable_prefix_len(s) ==> decodable_byte(#[trigger] s[i]),
        decodable_prefix_len(s) < s.len() ==> !decodable_byte(s[decodable_prefix_len(s) as int]),
    decreases s.len(),
{
    if s.len() > 0 && decodable_byte(s[0]) {
        lemma_decodable_prefix_len(s.drop_first());
        assert forall|i: int| 0 <= i < decodable_prefix_len(s) implies decodable_byte(
            #[trigger] s[i],
        ) by {
            if i > 0 {
                assert(s.drop_first()[i - 1] == s[i]);
            }
        }
        if decodable_prefix_len(s) < s.len() {
            let k = decodable_prefix_len(s) as int;
            assert(s.drop_first()[k - 1] == s[k]);
        }
    }
}

/// The bytes one encoder feed call appends for input `s`: the encodings of
/// the accepted prefix.
pub open spec fn encoder_fed_bytes(s: Seq<char>) -> Seq<u8> {
    encode_seq(s.take(encodable_prefix_len(s) as int))
}

/// The characters one decoder feed call appends for input `s`: the
/// decodings of the accepted prefix.
pub open spec fn decoder_fed_chars(s: Seq<u8>) -> Seq<char> {
    decode_seq(s.take(decodable_prefix_len(s) as int))
}

/// `encodable_prefix_len` is the one cut point: if everything before `k` is
/// representable and the character at `k` (if any) is not, the prefix length
/// is exactly `k`.
pub proof fn lemma_encodable_prefix_len_at(s: Seq<char>, k: int)
    requires
        0 <= k <= s.len(),
        forall|i: int| 0 <= i < k ==> encodable_char(#[trigger] s[i]),
        k < s.len() ==> !encodable_char(s[k]),
    ensures
        encodable_prefix_len(s) == k,
{
    lemma_encodable_prefix_len(s);
    let p = encodable_prefix_len(s) as int;
    if p < k {
        assert(encodable_char(s[p]));
    } else if p > k {
        assert(encodable_char(s[k]));
    }
}

/// `decodable_prefix_len` is the one cut point: if everything before `k` is
/// valid and the byte at `k` (if any) is not, the prefix length is exactly
/// `k`.
pub proof fn lemma_decodable_prefix_len_at(s: Seq<u8>, k: int)
    requires
        0 <= k <= s.len(),
        forall|i: int| 0 <= i < k ==> decodable_byte(#[trigger] s[i]),
        k < s.len() ==> !decodable_byte(s[k]),
    ensures
        decodable_prefix_len(s) == k,
{
    lemma_decodable_prefix_len(s);
    let p = decodable_prefix_len(s) as int;
    if p < k {
        assert(decodable_byte(s[p]));
    } else if p > k {
        assert(decodable_byte(s[k]));
    }
}

/// Round trip: decoding the encoding of a representable character yields
/// that character exactly.
pub proof fn lemma_round_trip(c: char)
    requires
        encodable_char(c),
    ensures
        decode_byte(encode_char(c)) == c,
{
}

/// Round trip over whole chunks: a sequence of representable characters,
/// once encoded, decodes back to itself exactly.
pub proof fn lemma_round_trip_seq(s: Seq<char>)
    requires
        forall|i: int| 0 <= i < s.len() ==> encodable_char(#[trigger] s[i]),
    ensures
        decode_seq(encode_seq(s)) =~= s,
{
    assert forall|i: int| 0 <= i < s.len() implies decode_seq(encode_seq(s))[i] == s[i] by {
        lemma_round_trip(s[i]);
    }
}

/// Empty input: a feed of the empty chunk accepts all of it (so the feed
/// call returns no error) and appends nothing to the sink.
pub proof fn lemma_encoder_feed_empty()
    ensures
        encodable_prefix_len(Seq::<char>::empty()) == Seq::<char>::empty().len(),
        encoder_fed_bytes(Seq::<char>::empty()) == Seq::<u8>::empty(),
{
    assert(encoder_fed_bytes(Seq::<char>::empty()) =~= Seq::<u8>::empty());
}

/// Empty input: a feed of the empty chunk accepts all of it (so the feed
/// call returns no error) and appends nothing to the sink.
pub proof fn lemma_decoder_feed_empty()
    ensures
        decodable_prefix_len(Seq::<u8>::empty()) == Seq::<u8>::empty().len(),
        decoder_fed_chars(Seq::<u8>::empty()) == Seq::<char>::empty(),
{
    assert(decoder_fed_chars(Seq::<u8>::empty()) =~= Seq::<char>::empty());
}

/// Chunking invariance for the encoder: since the codec is stateless,
/// feeding `s1 + s2` in one call appends the same bytes as feeding `s1` and
/// then `s2` in two calls. If `s1` is accepted in full, the accepted prefix
/// of the joined chunk is `s1` followed by the accepted prefix of `s2`;
/// otherwise the second chunk changes nothing, and the cut stays where it
/// was in `s1`.
pub proof fn lemma_encoder_chunking(s1: Seq<char>, s2: Seq<char>)
    ensures
        encodable_prefix_len(s1) == s1.len() ==> encodable_prefix_len(s1 + s2) == s1.len()
            + encodable_prefix_len(s2),
        encodable_prefix_len(s1) == s1.len() ==> encoder_fed_bytes(s1 + s2) =~= encoder_fed_bytes(
            s1,
        ) + encoder_fed_bytes(s2),
        encodable_prefix_len(s1) < s1.len() ==> encodable_prefix_len(s1 + s2)
            == encodable_prefix_len(s1),
        encodable_prefix_len(s1) < s1.len() ==> encoder_fed_bytes(s1 + s2) =~= encoder_fed_bytes(
            s1,
        ),
{
    lemma_encodable_prefix_len(s1);
    lemma_encodable_prefix_len(s2);
    let k1 = encodable_prefix_len(s1) as int;
    let k2 = encodable_prefix_len(s2) as int;
    let s = s1 + s2;
    if k1 == s1.len() {
        assert forall|i: int| 0 <= i < s1.len() + k2 implies encodable_char(#[trigger] s[i]) by {
            if i < s1.len() {
                assert(s[i] == s1[i]);
            } else {
                assert(s[i] == s2[i - s1.len()]);
            }
        }
        if s1.len() + k2 < s.len() {
            assert(s[s1.len() + k2] == s2[k2]);
        }
        lemma_encodable_prefix_len_at(s, s1.len() + k2);
        assert(s.take(s1.len() + k2) =~= s1 + s2.take(k2));
        assert(s1.take(k1) =~= s1);
        assert(encode_seq(s1 + s2.take(k2)) =~= encode_seq(s1) + encode_seq(s2.take(k2)));
    } else {
        assert forall|i: int| 0 <= i < k1 implies encodable_char(#[trigger] s[i]) by {
            assert(s[i] == s1[i]);
        }
        assert(s[k1] == s1[k1]);
        lemma_encodable_prefix_len_at(s, k1);
        assert(s.take(k1) =~= s1.take(k1));
    }
}

/// Chunking invariance for the decoder: since the codec is stateless,
/// feeding `s1 + s2` in one call appends the same characters as feeding
/// `s1` and then `s2` in two calls. If `s1` is accepted in full, the
/// accepted prefix of the joined chunk is `s1` followed by the accepted
/// prefix of `s2`; otherwise the second chunk changes nothing, and the cut
/// stays where it was in `s1`.
pub proof fn lemma_decoder_chunking(s1: Seq<u8>, s2: Seq<u8>)
    ensures
        decodable_prefix_len(s1) == s1.len() ==> decodable_prefix_len(s1 + s2) == s1.len()
            + decodable_prefix_len(s2),
        decodable_prefix_len(s1) == s1.len() ==> decoder_fed_chars(s1 + s2) =~= decoder_fed_chars(
            s1,
        ) + decoder_fed_chars(s2),
        decodable_prefix_len(s1) < s1.len() ==> decodable_prefix_len(s1 + s2)
            == decodable_prefix_len(s1),
        decodable_prefix_len(s1) < s1.len() ==> decoder_fed_chars(s1 + s2) =~= decoder_fed_chars(
            s1,
        ),
{
    lemma_decodable_prefix_len(s1);
    lemma_decodable_prefix_len(s2);
    let k1 = decodable_prefix_len(s1) as int;
    let k2 = decodable_prefix_len(s2) as int;
    let s = s1 + s2;
    if k1 == s1.len() {
        assert forall|i: int| 0 <= i < s1.len() + k2 implies decodable_byte(#[trigger] s[i]) by {
            if i < s1.len() {
                assert(s[i] == s1[i]);
            } else {
                assert(s[i] == s2[i - s1.len()]);
            }
        }
        if s1.len() + k2 < s.len() {
            assert(s[s1.len() + k2] == s2[k2]);
        }
        lemma_decodable_prefix_len_at(s, s1.len() + k2);
        assert(s.take(s1.len() + k2) =~= s1 + s2.take(k2));
        assert(s1.take(k1) =~= s1);
        assert(decode_seq(s1 + s2.take(k2)) =~= decode_seq(s1) + decode_seq(s2.take(k2)));
    } else {
        assert forall|i: int| 0 <= i < k1 implies decodable_byte(#[trigger] s[i]) by {
            assert(s[i] == s1[i]);
        }
        assert(s[k1] == s1[k1]);
        lemma_decodable_prefix_len_at(s, k1);
        assert(s.take(k1) =~= s1.take(k1));
    }
}

/// The 7-bit character set: an immutable, stateless identity that can
/// manufacture a fresh encoder/decoder pair. It holds no per-stream state,
/// so one value may be shared freely.
#[derive(Clone, Copy)]
pub struct ASCIIEncoding;

impl ASCIIEncoding {
    /// The stable, stateless identifier of this encoding.
    pub fn name(&self) -> (r: &'static str)
        ensures
            r@ == "ascii"@,
    {
        "ascii"
    }

    /// Constructs a fresh, independent, zero-state encoder.
    pub fn encoder(&self) -> (r: ASCIIEncoder)
        ensures
            r == ASCIIEncoder,
    {
        ASCIIEncoder
    }

    /// Constructs a fresh, independent, zero-state decoder.
    pub fn decoder(&self) -> (r: ASCIIDecoder)
        ensures
            r == ASCIIDecoder,
    {
        ASCIIDecoder
    }
}

/// The encoder half of the codec: consumes character data incrementally and
/// appends bytes to a byte sink. Per-stream and single-owner; this codec is
/// stateless, so nothing is carried between feed calls.
#[derive(Clone, Copy)]
pub struct ASCIIEncoder;

impl ASCIIEncoder {
    /// The encoding this encoder belongs to.
    pub fn encoding(&self) -> (r: ASCIIEncoding)
        ensures
            r == ASCIIEncoding,
    {
        ASCIIEncoding
    }

    /// Feeds one chunk of characters.
    ///
    /// The characters of `input` are taken in order; each representable one
    /// is appended to `output` as its single-byte form, write-through, with
    /// nothing buffered. The first unrepresentable character stops the call
    /// without writing it: the returned error's `remaining` is the input
    /// suffix starting just after that character (the character is reported
    /// once, in `problem`, as a one-character string, and not re-offered).
    /// `None` is returned if and only if every character of the chunk was
    /// consumed.
    pub fn raw_feed<W: ByteWriter>(&mut self, input: &str, output: &mut W) -> (r: Option<
        EncoderError,
    >)
        ensures
            *final(self) == *old(self),
            final(output).contents() == old(output).contents() + encoder_fed_bytes(input@),
            r is None <==> encodable_prefix_len(input@) == input@.len(),
            (match r {
                Option::None => true,
                Option::Some(e) => {
                    &&& e.remaining@ == input@.skip(encodable_prefix_len(input@) as int + 1)
                    &&& e.problem@ == seq![input@[encodable_prefix_len(input@) as int]]
                    &&& e.cause@ == "unrepresentable character"@
                },
            }),
    {
        let len = input.unicode_len();
        output.writer_hint(len);
        let mut i: usize = 0;
        while i < len
            invariant
                i <= len,
                len == input@.len(),
                forall|j: int| 0 <= j < i ==> encodable_char(#[trigger] input@[j]),
                output.contents() == old(output).contents() + encode_seq(input@.take(i as int)),
            decreases len - i,
        {
            let ch = input.get_char(i);
            if (ch as u32) <= 0x7f {
                output.write_byte(ch as u8);
                proof {
                    assert(encode_seq(input@.take(i as int + 1)) =~= encode_seq(
                        input@.take(i as int),
                    ).push(encode_char(input@[i as int])));
                }
                i += 1;
            } else {
                let remaining = String::from_str(input.substring_char(i + 1, len));
                let problem = String::from_str(input.substring_char(i, i + 1));
                let cause = String::from_str("unrepresentable character");
                proof {
                    lemma_encodable_prefix_len_at(input@, i as int);
                    assert(input@.subrange(i as int + 1, len as int) =~= input@.skip(i as int + 1));
                    assert(input@.subrange(i as int, i as int + 1) =~= seq![input@[i as int]]);
                }
                return Some(CodecError { remaining, problem, cause });
            }
        }
        proof {
            lemma_encodable_prefix_len_at(input@, len as int);
            assert(input@.take(len as int) =~= input@);
        }
        None
    }

    /// Ends the stream: flushes any state pending between feed calls. The
    /// codec is stateless, so nothing is ever pending: the call appends
    /// nothing, changes nothing, and never fails.
    pub fn raw_finish<W: ByteWriter>(&mut self, output: &mut W) -> (r: Option<EncoderError>)
        ensures
            *final(self) == *old(self),
            final(output).contents() == old(output).contents(),
            r is None,
    {
        None
    }
}

/// The decoder half of the codec: consumes byte data incrementally and
/// appends characters to a character sink. Per-stream and single-owner; this
/// codec is stateless, so nothing is carried between feed calls.
#[derive(Clone, Copy)]
pub struct ASCIIDecoder;

impl ASCIIDecoder {
    /// The encoding this decoder belongs to.
    pub fn encoding(&self) -> (r: ASCIIEncoding)
        ensures
            r == ASCIIEncoding,
    {
        ASCIIEncoding
    }

    /// Feeds one chunk of bytes.
    ///
    /// The bytes of `input` are taken in order from index 0; each valid one
    /// is appended to `output` as its character, write-through, with nothing
    /// buffered. The first invalid byte stops the call: the returned error's
    /// `remaining` is the input suffix starting just after that byte
    /// (exclusive: the byte is reported once, in `problem`, and not
    /// re-offered) and `problem` is that byte as a one-element sequence.
    /// `None` is returned if and only if the whole chunk decoded.
    pub fn raw_feed<W: StringWriter>(&mut self, input: &[u8], output: &mut W) -> (r: Option<
        DecoderError,
    >)
        ensures
            *final(self) == *old(self),
            final(output).contents() == old(output).contents() + decoder_fed_chars(input@),
            r is None <==> decodable_prefix_len(input@) == input@.len(),
            (match r {
                Option::None => true,
                Option::Some(e) => {
                    &&& e.remaining@ == input@.skip(decodable_prefix_len(input@) as int + 1)
                    &&& e.problem@ == seq![input@[decodable_prefix_len(input@) as int]]
                    &&& e.cause@ == "invalid sequence"@
                },
            }),
    {
        let len = input.len();
        output.writer_hint(len);
        let mut i: usize = 0;
        while i < len
            invariant
                i <= len,
                len == input@.len(),
                forall|j: int| 0 <= j < i ==> decodable_byte(#[trigger] input@[j]),
                output.contents() == old(output).contents() + decode_seq(input@.take(i as int)),
            decreases len - i,
        {
            let b = input[i];
            if b <= 0x7f {
                output.write_char(b as char);
                proof {
                    assert(decode_seq(input@.take(i as int + 1)) =~= decode_seq(
                        input@.take(i as int),
                    ).push(decode_byte(input@[i as int])));
                }
                i += 1;
            } else {
                let remaining = vstd::slice::slice_to_vec(
                    vstd::slice::slice_subrange(input, i + 1, len),
                );
                let mut problem: Vec<u8> = Vec::new();
                problem.push(b);
                let cause = String::from_str("invalid sequence");
                proof {
                    lemma_decodable_prefix_len_at(input@, i as int);
                    assert(input@.subrange(i as int + 1, len as int) =~= input@.skip(i as int + 1));
                    assert(problem@ =~= seq![input@[i as int]]);
                }
                return Some(CodecError { remaining, problem, cause });
            }
        }
        proof {
            lemma_decodable_prefix_len_at(input@, len as int);
            assert(input@.take(len as int) =~= input@);
        }
        None
    }

    /// Ends the stream: flushes any state pending between feed calls. A
    /// stateful multi-byte codec would use this hook to fail on an
    /// incomplete trailing sequence; this codec is stateless, so the call
    /// appends nothing, changes nothing, and never fails.
    pub fn raw_finish<W: StringWriter>(&mut self, output: &mut W) -> (r: Option<DecoderError>)
        ensures
            *final(self) == *old(self),
            final(output).contents() == old(output).contents(),
            r is None,
    {
        None
    }
}

} // verus!
