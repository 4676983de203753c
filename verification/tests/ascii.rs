use ascii_codec::ascii::ASCIIDecoder;
use ascii_codec::ascii::ASCIIEncoder;
use ascii_codec::ascii::ASCIIEncoding;
use ascii_codec::writer::ByteWriter;
use ascii_codec::writer::StringWriter;

/// Feeds one chunk into a fresh byte sink and reports what this call
/// appended, with the error stripped to its contractual fields.
fn encoder_feed(e: &mut ASCIIEncoder, input: &str) -> (Vec<u8>, Option<(String, String)>) {
    let mut out: Vec<u8> = Vec::new();
    let err = e.raw_feed(input, &mut out);
    (out, err.map(|c| (c.remaining, c.problem)))
}

fn encoder_finish(e: &mut ASCIIEncoder) -> (Vec<u8>, Option<(String, String)>) {
    let mut out: Vec<u8> = Vec::new();
    let err = e.raw_finish(&mut out);
    (out, err.map(|c| (c.remaining, c.problem)))
}

/// Feeds one chunk into a fresh character sink and reports what this call
/// appended, with the error stripped to its contractual fields.
fn decoder_feed(d: &mut ASCIIDecoder, input: &[u8]) -> (String, Option<(Vec<u8>, Vec<u8>)>) {
    let mut out = String::new();
    let err = d.raw_feed(input, &mut out);
    (out, err.map(|c| (c.remaining, c.problem)))
}

fn decoder_finish(d: &mut ASCIIDecoder) -> (String, Option<(Vec<u8>, Vec<u8>)>) {
    let mut out = String::new();
    let err = d.raw_finish(&mut out);
    (out, err.map(|c| (c.remaining, c.problem)))
}

#[test]
fn test_encoder() {
    let mut e = ASCIIEncoding.encoder();
    assert_eq!(encoder_feed(&mut e, "A"), (vec![0x41], None));
    assert_eq!(encoder_feed(&mut e, "BC"), (vec![0x42, 0x43], None));
    assert_eq!(encoder_feed(&mut e, ""), (vec![], None));
    assert_eq!(
        encoder_feed(&mut e, "\u{a0}"),
        (vec![], Some((String::from(""), String::from("\u{a0}"))))
    );
    assert_eq!(encoder_finish(&mut e), (vec![], None));
}

#[test]
fn test_decoder() {
    let mut d = ASCIIEncoding.decoder();
    assert_eq!(decoder_feed(&mut d, &[0x41]), (String::from("A"), None));
    assert_eq!(decoder_feed(&mut d, &[0x42, 0x43]), (String::from("BC"), None));
    assert_eq!(decoder_feed(&mut d, &[]), (String::from(""), None));
    assert_eq!(
        decoder_feed(&mut d, &[0xa0]),
        (String::from(""), Some((vec![], vec![0xa0])))
    );
    assert_eq!(decoder_finish(&mut d), (String::from(""), None));
}

#[test]
fn test_name() {
    assert_eq!(ASCIIEncoding.name(), "ascii");
    assert_eq!(ASCIIEncoding.encoder().encoding().name(), "ascii");
    assert_eq!(ASCIIEncoding.decoder().encoding().name(), "ascii");
}

#[test]
fn test_round_trip_all_representable() {
    // Every character with a code point up to 0x7f survives an encode
    // followed by a decode exactly.
    let mut original = String::new();
    for v in 0u32..=0x7f {
        original.push(char::from_u32(v).unwrap());
    }
    let mut e = ASCIIEncoding.encoder();
    let (bytes, enc_err) = encoder_feed(&mut e, &original);
    assert_eq!(enc_err, None);
    let expected: Vec<u8> = (0u8..=0x7f).collect();
    assert_eq!(bytes, expected);
    let mut d = ASCIIEncoding.decoder();
    let (decoded, dec_err) = decoder_feed(&mut d, &bytes);
    assert_eq!(dec_err, None);
    assert_eq!(decoded, original);
}

#[test]
fn test_chunking_invariance() {
    // Feeding "AB" in one call appends the same bytes as feeding "A" then
    // "B" in two calls against the same sink.
    let mut one_call = ASCIIEncoding.encoder();
    let mut out_one: Vec<u8> = Vec::new();
    assert!(one_call.raw_feed("AB", &mut out_one).is_none());
    assert!(one_call.raw_finish(&mut out_one).is_none());

    let mut two_calls = ASCIIEncoding.encoder();
    let mut out_two: Vec<u8> = Vec::new();
    assert!(two_calls.raw_feed("A", &mut out_two).is_none());
    assert!(two_calls.raw_feed("B", &mut out_two).is_none());
    assert!(two_calls.raw_finish(&mut out_two).is_none());

    assert_eq!(out_one, out_two);
    assert_eq!(out_one, vec![0x41, 0x42]);

    let mut d_one = ASCIIEncoding.decoder();
    let mut text_one = String::new();
    assert!(d_one.raw_feed(&[0x41, 0x42], &mut text_one).is_none());
    assert!(d_one.raw_finish(&mut text_one).is_none());

    let mut d_two = ASCIIEncoding.decoder();
    let mut text_two = String::new();
    assert!(d_two.raw_feed(&[0x41], &mut text_two).is_none());
    assert!(d_two.raw_feed(&[0x42], &mut text_two).is_none());
    assert!(d_two.raw_finish(&mut text_two).is_none());

    assert_eq!(text_one, text_two);
    assert_eq!(text_one, "AB");
}

#[test]
fn test_boundary() {
    // 0x7f is the last representable code point; 0x80 is the first that
    // fails, in both directions.
    let mut e = ASCIIEncoding.encoder();
    assert_eq!(encoder_feed(&mut e, "\u{7f}"), (vec![0x7f], None));
    let (written, err) = encoder_feed(&mut e, "\u{80}");
    assert_eq!(written, vec![]);
    assert_eq!(err, Some((String::from(""), String::from("\u{80}"))));

    let mut d = ASCIIEncoding.decoder();
    assert_eq!(decoder_feed(&mut d, &[0x7f]), (String::from("\u{7f}"), None));
    let (decoded, err) = decoder_feed(&mut d, &[0x80]);
    assert_eq!(decoded, "");
    assert_eq!(err, Some((vec![], vec![0x80])));
}

#[test]
fn test_encoder_error_mid_chunk() {
    // Everything before the offending character has already reached the
    // sink; `remaining` starts just after that character, which is reported
    // once, in `problem`.
    let mut e = ASCIIEncoding.encoder();
    let (written, err) = encoder_feed(&mut e, "A\u{a0}B");
    assert_eq!(written, vec![0x41]);
    let (remaining, problem) = err.expect("an unrepresentable character must be reported");
    assert_eq!(remaining, "B");
    assert_eq!(problem, "\u{a0}");
    // Resuming from `remaining` directly consumes the rest.
    assert_eq!(encoder_feed(&mut e, &remaining), (vec![0x42], None));
}

#[test]
fn test_decoder_error_mid_chunk() {
    // As on the encoder side, the offending byte is excluded from
    // `remaining`: it is reported once, in `problem`, and not re-offered.
    let mut d = ASCIIEncoding.decoder();
    let (decoded, err) = decoder_feed(&mut d, &[0x41, 0x80, 0x42]);
    assert_eq!(decoded, "A");
    let (remaining, problem) = err.expect("an invalid byte must be reported");
    assert_eq!(remaining, vec![0x42]);
    assert_eq!(problem, vec![0x80]);
    // Resuming from `remaining` directly consumes the rest.
    assert_eq!(decoder_feed(&mut d, &remaining), (String::from("B"), None));
}

#[test]
fn test_error_cause_is_diagnostic_text() {
    let mut e = ASCIIEncoding.encoder();
    let mut out: Vec<u8> = Vec::new();
    let err = e.raw_feed("\u{100}", &mut out).expect("must fail");
    assert_eq!(err.cause, "unrepresentable character");

    let mut d = ASCIIEncoding.decoder();
    let mut text = String::new();
    let err = d.raw_feed(&[0xff], &mut text).expect("must fail");
    assert_eq!(err.cause, "invalid sequence");
}

#[test]
fn test_finish_idempotent() {
    // Finish on the stateless codec never alters previously written output
    // and never itself fails, however often a caller invokes it.
    let mut e = ASCIIEncoding.encoder();
    let mut out: Vec<u8> = Vec::new();
    assert!(e.raw_feed("hi", &mut out).is_none());
    assert!(e.raw_finish(&mut out).is_none());
    assert_eq!(out, vec![0x68, 0x69]);
    assert!(e.raw_finish(&mut out).is_none());
    assert_eq!(out, vec![0x68, 0x69]);

    let mut d = ASCIIEncoding.decoder();
    let mut text = String::new();
    assert!(d.raw_feed(&[0x68, 0x69], &mut text).is_none());
    assert!(d.raw_finish(&mut text).is_none());
    assert_eq!(text, "hi");
    assert!(d.raw_finish(&mut text).is_none());
    assert_eq!(text, "hi");
}

#[test]
fn test_writer_hint_changes_nothing() {
    // The size hint is advisory: it may reserve capacity but never changes
    // what has been written.
    let mut bytes: Vec<u8> = vec![1, 2, 3];
    ByteWriter::writer_hint(&mut bytes, 100);
    assert_eq!(bytes, vec![1, 2, 3]);
    bytes.write_byte(4);
    assert_eq!(bytes, vec![1, 2, 3, 4]);

    let mut text = String::from("ab");
    StringWriter::writer_hint(&mut text, 100);
    assert_eq!(text, "ab");
    text.write_char('c');
    assert_eq!(text, "abc");
}
