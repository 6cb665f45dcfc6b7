use json_codec::fault::ParseFault;
use json_codec::number::{digit_run_end, integer_value, is_decimal_literal_text};
use json_codec::parser::{
    hex_digit, is_blank_char, is_digit_char, is_terminator_char, parse_error, CharPosition,
};
use json_codec::serializer::{append_escaped, serialize_error};
use json_codec::text::{
    append_chars, append_int, append_nat, append_str, chars_of, digit_to_char, hex_to_char, string_of,
};
use json_codec::{JsonErrorKind, JsonParser, JsonSerializer, JsonSerializerIndentKind, JsonSerializerNewLineKind};
use json_codec::{JsonKey, JsonObject, JsonValue};

fn chars(text: &str) -> Vec<char> {
    text.chars().collect()
}

#[test]
fn cursor_counts_lines_and_columns() {
    let mut position = CharPosition::new();
    assert_eq!(position.get_idx(), 0);
    assert_eq!(position.get_position(), (1, 1));
    position.increment(&'a');
    assert_eq!(position.get_idx(), 1);
    assert_eq!(position.get_position(), (1, 2));
    position.increment(&'\r');
    assert_eq!(position.get_position(), (1, 3));
    position.increment(&'\n');
    assert_eq!(position.get_idx(), 3);
    assert_eq!(position.get_position(), (2, 1));
    position.increment(&'\u{1F31F}');
    assert_eq!(position.get_position(), (2, 2));
    position.increment(&'\n');
    position.increment(&'\n');
    assert_eq!(position.get_idx(), 6);
    assert_eq!(position.get_position(), (4, 1));
}

#[test]
fn parse_error_names_the_position() {
    let mut position = CharPosition::new();
    for c in "ab\ncdefghijk".chars() {
        position.increment(&c);
    }
    let err = parse_error(JsonErrorKind::ParseErrorInKey, "detail", &position);
    assert_eq!(err.err_kind, JsonErrorKind::ParseErrorInKey);
    assert_eq!(err.op_additional_message, Some("detail | line:2 column:10".to_string()));
}

#[test]
fn serialize_error_names_the_text() {
    let err = serialize_error(JsonErrorKind::SerializeErrorInNumber, "detail", "inf");
    assert_eq!(err.err_kind, JsonErrorKind::SerializeErrorInNumber);
    assert_eq!(err.op_additional_message, Some("detail | inf".to_string()));
}

#[test]
fn faults_have_kinds_and_texts() {
    assert_eq!(ParseFault::ObjectNotClosed.kind(), JsonErrorKind::ParseErrorInObject);
    assert_eq!(ParseFault::ObjectNotClosed.text(), "Object is not closed.");
    assert_eq!(ParseFault::KeyUnexpected.kind(), JsonErrorKind::ParseErrorInKey);
    assert_eq!(ParseFault::ValueUnexpected.kind(), JsonErrorKind::ParseErrorInValue);
    assert_eq!(ParseFault::StringUnexpected.kind(), JsonErrorKind::ParseErrorInString);
    assert_eq!(ParseFault::StringUnexpected.text(), "String: Expected '\"' but found an another character.");
    assert_eq!(ParseFault::EscapeUnexpected.kind(), JsonErrorKind::ParseErrorInString);
    assert_eq!(ParseFault::EscapeUnexpected.text(), "EscapeString: Expected '\\' but found an another character.");
    assert_eq!(ParseFault::NumberNotInt.kind(), JsonErrorKind::ParseErrorInNumber);
    assert_eq!(ParseFault::BoolUnexpected.kind(), JsonErrorKind::ParseErrorInBool);
    assert_eq!(ParseFault::BoolUnexpected.text(), "Bool: Expected any bool character but found an another character.");
    assert_eq!(ParseFault::NullMismatch.kind(), JsonErrorKind::ParseErrorInNull);
    assert_eq!(ParseFault::ArrayUnexpected.kind(), JsonErrorKind::ParseErrorInArray);
    assert_eq!(ParseFault::ArrayUnexpected.text(), "Array: Expected '[' but found an another character.");
    assert_eq!(ParseFault::ArrayNotOpened.kind(), JsonErrorKind::ParseErrorInArray);
    assert_eq!(ParseFault::ArrayNotOpened.text(), "Array: Object is not closed.");
    assert_eq!(ParseFault::SeparatorUnexpected.kind(), JsonErrorKind::ParseErrorInObject);
}

#[test]
fn characters_are_classified() {
    for c in [' ', '\t', '\n', '\r'] {
        assert!(is_blank_char(c));
        assert!(is_terminator_char(c));
    }
    for c in [',', '}', ']'] {
        assert!(!is_blank_char(c));
        assert!(is_terminator_char(c));
    }
    for c in ['a', '0', '{', '[', ':', '"', '\u{000B}', '\u{00A0}'] {
        assert!(!is_blank_char(c));
        assert!(!is_terminator_char(c));
    }
    assert!(is_digit_char('0') && is_digit_char('9') && !is_digit_char('/') && !is_digit_char(':'));
    assert_eq!(hex_digit('0'), Some(0));
    assert_eq!(hex_digit('9'), Some(9));
    assert_eq!(hex_digit('a'), Some(10));
    assert_eq!(hex_digit('f'), Some(15));
    assert_eq!(hex_digit('A'), Some(10));
    assert_eq!(hex_digit('F'), Some(15));
    assert_eq!(hex_digit('g'), None);
    assert_eq!(hex_digit('G'), None);
    assert_eq!(hex_digit(' '), None);
}

#[test]
fn text_is_converted() {
    assert_eq!(chars_of("a\u{3042}\u{1F31F}"), vec!['a', '\u{3042}', '\u{1F31F}']);
    assert_eq!(chars_of(""), Vec::<char>::new());
    assert_eq!(string_of(&vec!['a', '\u{3042}', '\u{1F31F}']), "a\u{3042}\u{1F31F}");
    let mut out = vec!['x'];
    append_str(&mut out, "yz");
    append_chars(&mut out, &vec!['!', '?']);
    assert_eq!(out, chars("xyz!?"));
    assert_eq!(digit_to_char(0), '0');
    assert_eq!(digit_to_char(9), '9');
    assert_eq!(hex_to_char(9), '9');
    assert_eq!(hex_to_char(10), 'a');
    assert_eq!(hex_to_char(15), 'f');
}

#[test]
fn numbers_are_written_in_decimal() {
    let mut out = Vec::new();
    append_nat(&mut out, 0);
    out.push(' ');
    append_nat(&mut out, 9);
    out.push(' ');
    append_nat(&mut out, 10);
    out.push(' ');
    append_nat(&mut out, 340282366920938463463374607431768211455);
    out.push(' ');
    append_int(&mut out, 0);
    out.push(' ');
    append_int(&mut out, -1);
    out.push(' ');
    append_int(&mut out, 1203);
    out.push(' ');
    append_int(&mut out, i64::MIN);
    out.push(' ');
    append_int(&mut out, i64::MAX);
    assert_eq!(
        string_of(&out),
        "0 9 10 340282366920938463463374607431768211455 0 -1 1203 -9223372036854775808 9223372036854775807"
    );
}

#[test]
fn escapes_are_written() {
    let mut out = Vec::new();
    for c in ['"', '\\', '/', '\r', '\n', '\t', '\u{0008}', '\u{000C}', '\u{0000}', '\u{001A}', ' ', '\u{007F}', '\u{1F31F}'] {
        append_escaped(&mut out, c);
    }
    assert_eq!(string_of(&out), "\\\"\\\\/\\r\\n\\t\\b\\f\\u0000\\u001a \u{007F}\u{1F31F}");
}

#[test]
fn decimal_literals_are_recognised() {
    for text in ["0", "-0", "12", "0.5", "-1.25", "1e5", "1E5", "1e+5", "1e-5", "-12.5E-30", "007.10"] {
        assert!(is_decimal_literal_text(&chars(text)), "{}", text);
    }
    for text in [
        "", "-", "+1", ".5", "1.", "1.e5", "1e", "1e+", "1e5.5", "1e5e5", "1.2.3", "--1", "1-", "NaN", "inf",
        "-inf", "1 ", " 1", "0x10", "1,5",
    ] {
        assert!(!is_decimal_literal_text(&chars(text)), "{}", text);
    }
    assert_eq!(digit_run_end(&chars("12ab"), 0), 2);
    assert_eq!(digit_run_end(&chars("12ab"), 2), 2);
    assert_eq!(digit_run_end(&chars("12ab"), 4), 4);
    assert_eq!(digit_run_end(&chars("a123"), 1), 4);
}

#[test]
fn integer_literals_are_converted() {
    assert_eq!(integer_value(&chars("0")), Some(0));
    assert_eq!(integer_value(&chars("-0")), Some(0));
    assert_eq!(integer_value(&chars("42")), Some(42));
    assert_eq!(integer_value(&chars("-42")), Some(-42));
    assert_eq!(integer_value(&chars("000000000000000000000000000000042")), Some(42));
    assert_eq!(integer_value(&chars("9223372036854775807")), Some(i64::MAX));
    assert_eq!(integer_value(&chars("9223372036854775808")), None);
    assert_eq!(integer_value(&chars("-9223372036854775808")), Some(i64::MIN));
    assert_eq!(integer_value(&chars("-9223372036854775809")), None);
    assert_eq!(integer_value(&chars("99999999999999999999999999999999999999999999")), None);
    assert_eq!(integer_value(&chars("")), None);
    assert_eq!(integer_value(&chars("-")), None);
    assert_eq!(integer_value(&chars("+1")), None);
    assert_eq!(integer_value(&chars("1-")), None);
    assert_eq!(integer_value(&chars("1.0")), None);
    assert_eq!(integer_value(&chars("12a")), None);
}

#[test]
fn parser_and_serializer_are_reached_by_their_names() {
    let json_object = JsonParser::parse("{\"a\": [1, 2]}").unwrap();
    assert_eq!(json_object.members.len(), 1);
    let text =
        JsonSerializer::serialize(&json_object, JsonSerializerNewLineKind::Lf, JsonSerializerIndentKind::Tab)
            .unwrap();
    assert_eq!(text, "{\n\t\"a\" : [ 1, 2]\n}\n");
    assert_eq!(
        json_object.members.get(&JsonKey("a".to_string())).map(|value| matches!(value, JsonValue::ValueArray(_))),
        Some(true)
    );
    assert_eq!(JsonObject::new().members.len(), 0);
}
