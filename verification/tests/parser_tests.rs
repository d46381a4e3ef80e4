use tinyserde::parser::JsonParser;
use tinyserde::parser::JsonValue;

fn obj(entries: Vec<(&str, JsonValue)>) -> JsonValue {
    JsonValue::Object(entries.into_iter().map(|(k, v)| (k.to_string(), v)).collect())
}

#[test]
fn test_parse_json() {
    let json_input = "{ \"foo\": 123 \n, \"bar\":    456 }".to_string();
    let mut parser = JsonParser { input: json_input, cursor: 0 };
    let expected_value = obj(vec![
        ("foo", JsonValue::Number(123)),
        ("bar", JsonValue::Number(456)),
    ]);
    match parser.parse() {
        Ok(value) => assert_eq!(value, expected_value),
        Err(_) => assert!(false),
    }
}

#[test]
fn test_parse_json_obj_with_number() {
    let json_input = "{ \"foo\": 123 \n, \"bar\":    456 }".to_string();
    let mut parser = JsonParser { input: json_input, cursor: 0 };
    let expected_value = obj(vec![
        ("foo", JsonValue::Number(123)),
        ("bar", JsonValue::Number(456)),
    ]);
    match parser.parse() {
        Ok(value) => assert_eq!(value, expected_value),
        Err(_) => assert!(false),
    }
}

#[test]
fn test_parse_json_obj_with_string() {
    let json_input = "{ \"foo\": \"abcde\" }".to_string();
    let mut parser = JsonParser { input: json_input, cursor: 0 };
    let expected_value = obj(vec![("foo", JsonValue::String("abcde".to_string()))]);
    match parser.parse() {
        Ok(value) => assert_eq!(value, expected_value),
        Err(_) => assert!(false),
    };
}

#[test]
fn test_parse_json_obj_with_bool() {
    let json_input = "{ \"foo\": false }".to_string();
    let mut parser = JsonParser { input: json_input, cursor: 0 };
    let expected_value = obj(vec![("foo", JsonValue::Bool(false))]);
    match parser.parse() {
        Ok(value) => assert_eq!(value, expected_value),
        Err(_) => assert!(false),
    };
}

#[test]
fn test_parse_json_obj_with_null() {
    let json_input = "{ \"foo\": null }".to_string();
    let mut parser = JsonParser { input: json_input, cursor: 0 };
    let expected_value = obj(vec![("foo", JsonValue::Null)]);
    match parser.parse() {
        Ok(value) => assert_eq!(value, expected_value),
        Err(_) => assert!(false),
    };
}

#[test]
fn test_parse_json_obj_with_array() {
    let json_input = "
[
  \t{
\t\t\"foo\": null
\t},
\t{
\t\t\"bar\": 123
\t},
\t{
\t\t\"baz\": \"abcde\"
\t},
\t345,
\t\"efgh\",
\tnull,
\tfalse
]
"
    .to_string();
    let mut parser = JsonParser { input: json_input, cursor: 0 };
    let expected_value = JsonValue::Array(vec![
        obj(vec![("foo", JsonValue::Null)]),
        obj(vec![("bar", JsonValue::Number(123))]),
        obj(vec![("baz", JsonValue::String("abcde".to_string()))]),
        JsonValue::Number(345),
        JsonValue::String("efgh".to_string()),
        JsonValue::Null,
        JsonValue::Bool(false),
    ]);
    match parser.parse() {
        Ok(value) => assert_eq!(value, expected_value),
        Err(_) => assert!(false),
    };
}

#[test]
fn test_parse_json_obj_with_nested_string() {
    let json_input =
        "{ \"foo\": \"abcde and a nested string \"nested\" right in the middle of the sentence.\" }"
            .to_string();
    let mut parser = JsonParser { input: json_input, cursor: 0 };
    let expected_value = obj(vec![(
        "foo",
        JsonValue::String(
            "abcde and a nested string \"nested\" right in the middle of the sentence."
                .to_string(),
        ),
    )]);
    match parser.parse() {
        Ok(value) => assert_eq!(value, expected_value),
        Err(_) => assert!(false),
    };
}

#[test]
fn test_element_order_is_kept() {
    let mut parser = JsonParser {
        input: "[{\"a\": 1}, 2, \"three\", null, true]".to_string(),
        cursor: 0,
    };
    let expected = JsonValue::Array(vec![
        obj(vec![("a", JsonValue::Number(1))]),
        JsonValue::Number(2),
        JsonValue::String("three".to_string()),
        JsonValue::Null,
        JsonValue::Bool(true),
    ]);
    assert_eq!(parser.parse(), Ok(expected));
}

#[test]
fn test_duplicate_key_keeps_later_value() {
    let mut parser = JsonParser {
        input: "{\"a\": 1, \"b\": 2, \"a\": 3}".to_string(),
        cursor: 0,
    };
    let expected = obj(vec![("a", JsonValue::Number(3)), ("b", JsonValue::Number(2))]);
    assert_eq!(parser.parse(), Ok(expected));
}

#[test]
fn test_empty_array_is_accepted() {
    let mut parser = JsonParser { input: "[]".to_string(), cursor: 0 };
    assert_eq!(parser.parse(), Ok(JsonValue::Array(vec![])));
}

#[test]
fn test_array_trailing_comma_is_accepted() {
    let mut parser = JsonParser { input: "[1,]".to_string(), cursor: 0 };
    assert_eq!(parser.parse(), Ok(JsonValue::Array(vec![JsonValue::Number(1)])));
}

#[test]
fn test_multi_digit_and_signed_numbers() {
    let mut parser = JsonParser { input: "[105, -5, 0, 1009]".to_string(), cursor: 0 };
    let expected = JsonValue::Array(vec![
        JsonValue::Number(105),
        JsonValue::Number(-5),
        JsonValue::Number(0),
        JsonValue::Number(1009),
    ]);
    assert_eq!(parser.parse(), Ok(expected));
}

#[test]
fn test_extreme_numbers() {
    let mut parser = JsonParser {
        input: "[9223372036854775807, -9223372036854775807]".to_string(),
        cursor: 0,
    };
    let expected = JsonValue::Array(vec![
        JsonValue::Number(i64::MAX),
        JsonValue::Number(-i64::MAX),
    ]);
    assert_eq!(parser.parse(), Ok(expected));
}

#[test]
fn test_bare_string_value_keeps_final_quote() {
    // At the very end of the input the follow character of the last
    // quote is the sentinel, not a structural terminator, so that
    // quote counts as content and the scanner stops at end of input.
    let mut parser = JsonParser { input: "\"hi there\"".to_string(), cursor: 0 };
    assert_eq!(parser.parse(), Ok(JsonValue::String("hi there\"".to_string())));
}

#[test]
fn test_quote_followed_by_whitespace_and_terminator_closes() {
    // The closing quote is followed by whitespace and only then by
    // `}`: the follow character is computed past the whitespace.
    let mut parser = JsonParser { input: "{ \"k\": \"v\" \n\t }".to_string(), cursor: 0 };
    let expected = obj(vec![("k", JsonValue::String("v".to_string()))]);
    assert_eq!(parser.parse(), Ok(expected));
}

#[test]
fn test_embedded_quotes_in_key() {
    // The key scanner uses the same heuristic: the quote before the
    // colon closes the key, earlier ones are content.
    let mut parser = JsonParser { input: "{\"a \"b\": 7}".to_string(), cursor: 0 };
    let expected = obj(vec![("a \"b", JsonValue::Number(7))]);
    assert_eq!(parser.parse(), Ok(expected));
}

#[test]
fn test_whitespace_variations() {
    let mut parser = JsonParser {
        input: "\t\r\n { \"a\"\n:\t1\r,\n\"b\" : 2 }\n\t ".to_string(),
        cursor: 0,
    };
    let expected = obj(vec![("a", JsonValue::Number(1)), ("b", JsonValue::Number(2))]);
    assert_eq!(parser.parse(), Ok(expected));
}

#[test]
fn test_nested_objects() {
    let mut parser = JsonParser {
        input: "{\"outer\": {\"inner\": [1, 2]}}".to_string(),
        cursor: 0,
    };
    let expected = obj(vec![(
        "outer",
        obj(vec![(
            "inner",
            JsonValue::Array(vec![JsonValue::Number(1), JsonValue::Number(2)]),
        )]),
    )]);
    assert_eq!(parser.parse(), Ok(expected));
}
