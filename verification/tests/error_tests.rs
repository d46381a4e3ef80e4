use tinyserde::JsonParser;
use tinyserde::JsonValue;
use tinyserde::ParserError;

fn parse(text: &str) -> Result<JsonValue, ParserError> {
    let mut parser = JsonParser { input: text.to_string(), cursor: 0 };
    parser.parse()
}

#[test]
fn test_empty_object_is_rejected() {
    assert_eq!(parse("{}"), Err(ParserError::InvalidClosingBrace(1)));
    assert_eq!(parse("{ }"), Err(ParserError::InvalidClosingBrace(2)));
}

#[test]
fn test_close_brace_after_comma_is_rejected() {
    assert_eq!(parse("{\"a\":1,}"), Err(ParserError::InvalidClosingBrace(7)));
}

#[test]
fn test_trailing_input_is_an_error() {
    assert_eq!(parse("{\"a\":1} garbage"), Err(ParserError::TrailingInput(8)));
    assert_eq!(parse("1 2"), Err(ParserError::TrailingInput(2)));
}

#[test]
fn test_trailing_whitespace_is_fine() {
    assert_eq!(parse("1 \n\t "), Ok(JsonValue::Number(1)));
}

#[test]
fn test_missing_close_brace_is_structural() {
    assert_eq!(parse("{\"a\":1"), Err(ParserError::ExpectedChar(',', 6)));
}

#[test]
fn test_missing_close_bracket_is_structural() {
    assert_eq!(parse("[1"), Err(ParserError::ExpectedCommaOrClose(2)));
}

#[test]
fn test_missing_quote_is_structural() {
    // The scanner tolerates the missing quote; the error surfaces at
    // the next required delimiter instead of as an out-of-bounds
    // fault.
    assert_eq!(parse("{\"a"), Err(ParserError::ExpectedChar(':', 3)));
    assert_eq!(parse("{\"a\": \"xy"), Err(ParserError::ExpectedChar(',', 9)));
}

#[test]
fn test_missing_colon() {
    // Without a colon after the key's quote, that quote is not
    // followed by a terminator, so it counts as key content and the
    // scan runs to the end of the input; the colon is then missed
    // there.
    assert_eq!(parse("{\"a\" 1}"), Err(ParserError::ExpectedChar(':', 7)));
}

#[test]
fn test_missing_comma_in_array() {
    assert_eq!(parse("[1 2]"), Err(ParserError::ExpectedCommaOrClose(3)));
}

#[test]
fn test_unquoted_key() {
    assert_eq!(parse("{a: 1}"), Err(ParserError::ExpectedChar('"', 1)));
}

#[test]
fn test_unrecognized_value() {
    assert_eq!(parse("x"), Err(ParserError::UnrecognizedValue(0)));
    assert_eq!(parse(""), Err(ParserError::UnrecognizedValue(0)));
}

#[test]
fn test_literal_mismatch() {
    assert_eq!(parse("tru"), Err(ParserError::LiteralMismatch(0)));
    assert_eq!(parse("falsy"), Err(ParserError::LiteralMismatch(0)));
    assert_eq!(parse("{ \"foo\": nul }"), Err(ParserError::LiteralMismatch(9)));
}

#[test]
fn test_minus_without_digit() {
    assert_eq!(parse("-"), Err(ParserError::ExpectedDigit(1)));
    assert_eq!(parse("-x"), Err(ParserError::ExpectedDigit(1)));
}

#[test]
fn test_number_out_of_range() {
    assert_eq!(parse("9223372036854775808"), Err(ParserError::NumberOutOfRange(0)));
    assert_eq!(parse("[99999999999999999999]"), Err(ParserError::NumberOutOfRange(1)));
}

#[test]
fn test_array_with_space_before_close_needs_a_value() {
    // The element loop tests the raw lookahead before skipping
    // whitespace, so only `[]` closes an empty array at once.
    assert_eq!(parse("[ ]"), Err(ParserError::UnrecognizedValue(2)));
}

#[test]
fn test_nested_failure_propagates_unchanged() {
    assert_eq!(parse("{\"a\": {\"b\": x}}"), Err(ParserError::UnrecognizedValue(12)));
}

#[test]
fn test_pipe_character_acts_as_end_of_input() {
    // `|` is the reserved sentinel, not a legal character of the
    // language: inside a string it ends the scan like an end of
    // input, and what follows is then trailing.
    assert_eq!(parse("\"ab|cd\""), Err(ParserError::TrailingInput(3)));
}
