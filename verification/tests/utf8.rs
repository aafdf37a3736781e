use noline::utf8::{Utf8Char, Utf8Decoder, Utf8DecoderStatus};

#[test]
fn ascii() {
    let mut parser = Utf8Decoder::new();

    assert_eq!(
        parser.advance(b'a'),
        Utf8DecoderStatus::Done(Utf8Char::from_str("a"))
    );

    assert_eq!(parser.advance(b'a'), Utf8DecoderStatus::Error);
}

#[test]
fn twobyte() {
    let mut parser = Utf8Decoder::new();

    let bytes = "æ".as_bytes();

    assert_eq!(parser.advance(bytes[0]), Utf8DecoderStatus::Continuation);

    assert_eq!(
        parser.advance(bytes[1]),
        Utf8DecoderStatus::Done(Utf8Char::from_str("æ"))
    );

    assert_eq!(parser.advance(b'a'), Utf8DecoderStatus::Error);
}

#[test]
fn threebyte() {
    let mut parser = Utf8Decoder::new();

    let bytes = "€".as_bytes();

    assert_eq!(parser.advance(bytes[0]), Utf8DecoderStatus::Continuation);
    assert_eq!(parser.advance(bytes[1]), Utf8DecoderStatus::Continuation);

    assert_eq!(
        parser.advance(bytes[2]),
        Utf8DecoderStatus::Done(Utf8Char::from_str("€"))
    );

    assert_eq!(parser.advance(b'a'), Utf8DecoderStatus::Error);
}

#[test]
fn fourbyte() {
    let mut parser = Utf8Decoder::new();

    let symbol = "😂";

    let bytes = symbol.as_bytes();

    assert_eq!(parser.advance(bytes[0]), Utf8DecoderStatus::Continuation);
    assert_eq!(parser.advance(bytes[1]), Utf8DecoderStatus::Continuation);
    assert_eq!(parser.advance(bytes[2]), Utf8DecoderStatus::Continuation);

    assert_eq!(
        parser.advance(bytes[3]),
        Utf8DecoderStatus::Done(Utf8Char::from_str(symbol))
    );

    assert_eq!(parser.advance(b'a'), Utf8DecoderStatus::Error);
}

#[test]
fn invalid_start() {
    let mut parser = Utf8Decoder::new();

    assert_eq!(parser.advance(0b10000000), Utf8DecoderStatus::Error);
}

#[test]
fn invalid_continuation() {
    let mut parser = Utf8Decoder::new();

    assert_eq!(parser.advance(0b11000000), Utf8DecoderStatus::Continuation);
    assert_eq!(parser.advance(0b00000000), Utf8DecoderStatus::Error);
}

#[test]
fn to_char() {
    assert_eq!(Utf8Char::from_str("€").as_char(), '€');
}

#[test]
fn utf8_char_bytes() {
    assert_eq!(Utf8Char::from_str("€").as_bytes(), "€".as_bytes());
    assert_eq!(Utf8Char::from_str("a").as_bytes(), b"a");
    assert_eq!(Utf8Char::from_str("😂").as_char(), '😂');
}

#[test]
fn decoder_stays_done_after_error() {
    let mut parser = Utf8Decoder::new();

    assert_eq!(parser.advance(0xff), Utf8DecoderStatus::Error);
    assert_eq!(parser.advance(b'z'), Utf8DecoderStatus::Error);
}

#[test]
fn decoder_errs_after_done() {
    let mut d = Utf8Decoder::new();
    assert_eq!(d.advance(0xc3), Utf8DecoderStatus::Continuation);
    assert!(matches!(d.advance(0xa6), Utf8DecoderStatus::Done(_)));
    assert_eq!(d.advance(b'a'), Utf8DecoderStatus::Error);
    assert_eq!(d.advance(b'b'), Utf8DecoderStatus::Error);
}

#[test]
fn overlong_encoding_folds_to_its_value() {
    let mut d = Utf8Decoder::new();
    assert_eq!(d.advance(0xc1), Utf8DecoderStatus::Continuation);
    match d.advance(0x81) {
        Utf8DecoderStatus::Done(c) => assert_eq!(c.as_char(), 'A'),
        _ => panic!("expected a character"),
    }
}
