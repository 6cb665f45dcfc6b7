use json_codec::{JsonError, JsonErrorKind, JsonObject};

fn failure(text: &str) -> JsonError {
    match JsonObject::parse(text) {
        Ok(json_object) => panic!("parsed: {:?}", json_object),
        Err(err) => err,
    }
}

fn assert_fails(text: &str, kind: JsonErrorKind, detail: &str) {
    let err = failure(text);
    assert_eq!(err.err_kind, kind, "{}", text);
    assert_eq!(err.op_additional_message, Some(detail.to_string()), "{}", text);
}

#[test]
fn unterminated_object_is_not_closed() {
    assert_fails("{", JsonErrorKind::ParseErrorInObject, "StartObject: Object is not closed. | line:1 column:2");
    assert_fails("", JsonErrorKind::ParseErrorInObject, "StartObject: Object is not closed. | line:1 column:1");
    assert_fails("{\"a\"", JsonErrorKind::ParseErrorInObject, "Object is not closed. | line:1 column:5");
    assert_fails("{\"a\":", JsonErrorKind::ParseErrorInObject, "Object is not closed. | line:1 column:6");
    assert_fails("{\"a\":\"x\"", JsonErrorKind::ParseErrorInObject, "Object is not closed. | line:1 column:9");
    assert_fails("{\"a\":  ", JsonErrorKind::ParseErrorInObject, "Blank: Object is not closed. | line:1 column:8");
    assert_fails("{\"a\" ", JsonErrorKind::ParseErrorInObject, "Comma: Object is not closed. | line:1 column:6");
    assert_fails(
        "{\"a\":\"x\" ",
        JsonErrorKind::ParseErrorInObject,
        "EndMember: Object is not closed. | line:1 column:10",
    );
}

#[test]
fn misspelt_bool_is_a_bool_error() {
    assert_fails(
        "{\"k\": tru}",
        JsonErrorKind::ParseErrorInBool,
        "Bool: Expected \"true\" or \"false\" but found an another string. | line:1 column:10",
    );
    assert_fails(
        "{\"k\": truefalse}",
        JsonErrorKind::ParseErrorInBool,
        "Bool: Expected \"true\" or \"false\" but found an too long string. | line:1 column:13",
    );
    assert_fails("{\"k\": tr", JsonErrorKind::ParseErrorInBool, "Bool:  Object is not closed. | line:1 column:9");
}

#[test]
fn top_level_array_is_rejected() {
    assert_fails(
        "[1,2]",
        JsonErrorKind::ParseErrorInObject,
        "StartObject: Expected '{' but found an another character. | line:1 column:1",
    );
    assert_fails(
        "{x}",
        JsonErrorKind::ParseErrorInObject,
        "StartObject: Expected '{' but found an another character. | line:1 column:2",
    );
}

#[test]
fn key_errors() {
    assert_fails(
        "{\"a\":1,b}",
        JsonErrorKind::ParseErrorInKey,
        "Key: Expected '\"' but found an another character. | line:1 column:8",
    );
    assert_fails("{\"a\":1,", JsonErrorKind::ParseErrorInKey, "Key: Object is not closed. | line:1 column:8");
}

#[test]
fn member_errors() {
    assert_fails(
        "{\"a\" 1}",
        JsonErrorKind::ParseErrorInObject,
        "Key: Expected ':' but found an another character. | line:1 column:6",
    );
    assert_fails(
        "{\"a\":\"x\" \"b\"}",
        JsonErrorKind::ParseErrorInObject,
        "EndMember: Expected '}' or ',' but found an another character. | line:1 column:10",
    );
}

#[test]
fn value_errors() {
    assert_fails(
        "{\"a\": ?}",
        JsonErrorKind::ParseErrorInValue,
        "Value: Expected any charcter that start value but found an another character. | line:1 column:7",
    );
}

#[test]
fn string_errors() {
    assert_fails("{\"a", JsonErrorKind::ParseErrorInString, "String: Object is not closed. | line:1 column:4");
    assert_fails(
        "{\"a\":\"\\",
        JsonErrorKind::ParseErrorInString,
        "EscapeString: Object is not closed. | line:1 column:8",
    );
    assert_fails(
        "{\"a\":\"\\x\"}",
        JsonErrorKind::ParseErrorInString,
        "EscapeString: Expected any escaped character but found an another character. | line:1 column:8",
    );
    assert_fails(
        "{\"a\":\"\\u12G4\"}",
        JsonErrorKind::ParseErrorInString,
        "EscapeString: Expected any Hexadecimal character but found an another character. | line:1 column:11",
    );
    assert_fails(
        "{\"a\":\"\\u12",
        JsonErrorKind::ParseErrorInString,
        "EscapeString: Object is not closed. | line:1 column:11",
    );
    assert_fails(
        "{\"a\":\"\\uD83Cx\"}",
        JsonErrorKind::ParseErrorInString,
        "EscapeString: Expected \"\\u\" but found an another character. | line:1 column:13",
    );
    assert_fails(
        "{\"a\":\"\\uD83C\\u0041\"}",
        JsonErrorKind::ParseErrorInString,
        "EscapeString: Escaped string could not be parsed to \"char\". | line:1 column:19",
    );
    assert_fails(
        "{\"a\":\"\\uDF1F\"}",
        JsonErrorKind::ParseErrorInString,
        "EscapeString: Escaped string could not be parsed to \"char\". | line:1 column:13",
    );
    assert_fails(
        "{\"a\":\"\\uD83C\\",
        JsonErrorKind::ParseErrorInString,
        "EscapeString: Object is not closed. | line:1 column:13",
    );
}

#[test]
fn number_errors() {
    assert_fails(
        "{\"a\":1-2}",
        JsonErrorKind::ParseErrorInNumber,
        "Number: '-'s position is not allowed. | line:1 column:7",
    );
    assert_fails(
        "{\"a\":1+2}",
        JsonErrorKind::ParseErrorInNumber,
        "Number: '+'s position is not allowed. | line:1 column:7",
    );
    assert_fails(
        "{\"a\":1.2.3}",
        JsonErrorKind::ParseErrorInNumber,
        "Number: '.'s position is not allowed. | line:1 column:9",
    );
    assert_fails(
        "{\"a\":-e5}",
        JsonErrorKind::ParseErrorInNumber,
        "Number: 'e' or 'E's position is not allowed. | line:1 column:7",
    );
    assert_fails(
        "{\"a\":1x}",
        JsonErrorKind::ParseErrorInNumber,
        "Number: Expected any number character but found an another character. | line:1 column:7",
    );
    assert_fails("{\"a\":12", JsonErrorKind::ParseErrorInNumber, "Number:  Object is not closed. | line:1 column:8");
    assert_fails(
        "{\"a\":9223372036854775808}",
        JsonErrorKind::ParseErrorInNumber,
        "Number: Number string could not be parsed to \"i64\". | line:1 column:25",
    );
    assert_fails(
        "{\"a\":-9223372036854775809}",
        JsonErrorKind::ParseErrorInNumber,
        "Number: Number string could not be parsed to \"i64\". | line:1 column:26",
    );
    assert_fails(
        "{\"a\":-}",
        JsonErrorKind::ParseErrorInNumber,
        "Number: Number string could not be parsed to \"i64\". | line:1 column:7",
    );
    assert_fails(
        "{\"a\":1e}",
        JsonErrorKind::ParseErrorInNumber,
        "Number: Number string could not be parsed to \"f64\". | line:1 column:8",
    );
    assert_fails(
        "{\"a\":1.}",
        JsonErrorKind::ParseErrorInNumber,
        "Number: Number string could not be parsed to \"f64\". | line:1 column:8",
    );
    assert_fails(
        "{\"a\":1e5e5}",
        JsonErrorKind::ParseErrorInNumber,
        "Number: Number string could not be parsed to \"f64\". | line:1 column:11",
    );
}

#[test]
fn null_errors() {
    assert_fails(
        "{\"a\":nul}",
        JsonErrorKind::ParseErrorInNull,
        "Null: Expected \"null\" but found an another string. | line:1 column:9",
    );
    assert_fails(
        "{\"a\":nulls}",
        JsonErrorKind::ParseErrorInNull,
        "Null: Expected \"null\" but found an too long string. | line:1 column:11",
    );
    assert_fails("{\"a\":nu", JsonErrorKind::ParseErrorInNull, "Null:  Object is not closed. | line:1 column:8");
}

#[test]
fn array_errors() {
    assert_fails("{\"a\":[", JsonErrorKind::ParseErrorInArray, "Null:  Object is not closed. | line:1 column:7");
    assert_fails("{\"a\":[1,", JsonErrorKind::ParseErrorInArray, "Null:  Object is not closed. | line:1 column:9");
    assert_fails(
        "{\"a\":[1,]}",
        JsonErrorKind::ParseErrorInArray,
        "Array: Expected any start member character but found an another character. | line:1 column:9",
    );
    assert_fails(
        "{\"a\":[\"x\" \"y\"]}",
        JsonErrorKind::ParseErrorInObject,
        "Array: Expected ',' but found an another character. | line:1 column:11",
    );
    assert_fails("{\"a\":[\"x\"", JsonErrorKind::ParseErrorInObject, "Array: Object is not closed. | line:1 column:10");
    assert_fails("{\"a\":[1, ", JsonErrorKind::ParseErrorInObject, "Blank: Object is not closed. | line:1 column:10");
}

#[test]
fn position_counts_lines_and_columns() {
    assert_fails(
        "{\n  \"a\": 1,\n  \"b\": ?\n}",
        JsonErrorKind::ParseErrorInValue,
        "Value: Expected any charcter that start value but found an another character. | line:3 column:8",
    );
    assert_fails(
        "{\r\n\"\u{3042}\u{1F31F}\": ?}",
        JsonErrorKind::ParseErrorInValue,
        "Value: Expected any charcter that start value but found an another character. | line:2 column:7",
    );
    assert_fails(
        "{\"a\":\n\n\n\n\n\n\n\n\n\n\n?}",
        JsonErrorKind::ParseErrorInValue,
        "Value: Expected any charcter that start value but found an another character. | line:12 column:1",
    );
}

#[test]
fn error_text() {
    let err = failure("{");
    assert_eq!(
        err.to_string(),
        "Parse error in object : StartObject: Object is not closed. | line:1 column:2"
    );
    let err = JsonError::new(JsonErrorKind::SerializeErrorInString, None);
    assert_eq!(err.to_string(), "Serialize error in string");
    let err = JsonError::new(JsonErrorKind::ParseErrorInNull, Some("x".to_string()));
    assert_eq!(err.to_string(), "Parse error in null : x");
    assert_eq!(err.err_kind, JsonErrorKind::ParseErrorInNull);
    assert_eq!(err.op_additional_message, Some("x".to_string()));
}

#[test]
fn every_kind_has_its_message() {
    let kinds = [
        (JsonErrorKind::ParseErrorInObject, "Parse error in object"),
        (JsonErrorKind::ParseErrorInKey, "Parse error in key"),
        (JsonErrorKind::ParseErrorInValue, "Parse error in value"),
        (JsonErrorKind::ParseErrorInString, "Parse error in string"),
        (JsonErrorKind::ParseErrorInNumber, "Parse error in number"),
        (JsonErrorKind::ParseErrorInBool, "Parse error in bool"),
        (JsonErrorKind::ParseErrorInNull, "Parse error in null"),
        (JsonErrorKind::ParseErrorInArray, "Parse error in array"),
        (JsonErrorKind::SerializeErrorInObject, "Serialize error in object"),
        (JsonErrorKind::SerializeErrorInKey, "Serialize error in key"),
        (JsonErrorKind::SerializeErrorInValue, "Serialize error in value"),
        (JsonErrorKind::SerializeErrorInString, "Serialize error in string"),
        (JsonErrorKind::SerializeErrorInNumber, "Serialize error in number"),
        (JsonErrorKind::SerializeErrorInBool, "Serialize error in bool"),
        (JsonErrorKind::SerializeErrorInNull, "Serialize error in null"),
        (JsonErrorKind::SerializeErrorInArray, "Serialize error in array"),
    ];
    for (kind, message) in kinds {
        assert_eq!(kind.message(), message);
        assert_eq!(JsonError::new(kind, None).to_string(), message);
    }
}
