use irc::parse::error::{ParseError, ParseErrorKind};

#[test]
fn parse_error_reads_as_text() {
    let e = ParseError::new(ParseErrorKind::Truncated, vec![58, 32, 100]);
    assert_eq!(e.to_string(), "ParseError(Truncated) for [58, 32, 100]");
    let e = ParseError::unexpected_byte(32, b"prefix");
    assert_eq!(e.to_string(), "ParseError(UnexpectedByte): Unexpected byte `32' in prefix for []");
}

#[test]
fn parse_error_describes_itself() {
    assert_eq!(ParseError::new(ParseErrorKind::EncodingError, Vec::new()).description(), "encoding error");
    assert_eq!(ParseError::new(ParseErrorKind::TooManyArguments, Vec::new()).description(), "too many arguments");
    assert_eq!(ParseError::unexpected_byte(7, b"command").description(), "Unexpected byte `7' in command");
}
