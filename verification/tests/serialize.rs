use json_codec::{
    JsonErrorKind, JsonKey, JsonObject, JsonSerializerIndentKind, JsonSerializerNewLineKind, JsonValue,
    NumberType,
};

fn float(value: f64) -> JsonValue {
    JsonValue::ValueNumber(NumberType::Float(format!("{}", value)))
}

fn serialized_str_assert_eq(serialized_string: &str, object_brackets_lines: &(&str, &str), members_lines: &[&str]) {
    for (idx, line) in serialized_string.lines().enumerate() {
        let trimed_line = line.trim_end();
        if idx == 0 {
            assert_eq!(object_brackets_lines.0, trimed_line);
        } else if idx == members_lines.len() + 1 {
            assert_eq!(object_brackets_lines.1, trimed_line);
        } else if idx == members_lines.len() {
            members_lines.iter().position(|&expect_line| expect_line == trimed_line).unwrap();
        } else {
            members_lines
                .iter()
                .position(|&expect_line| &(expect_line.to_string() + ",") == trimed_line)
                .unwrap();
        }
    }
}

#[test]
fn serialize_string() {
    let object_brackets = ("{", "}");
    let member_lines = ["    \"string\" : \"string\"", "    \"escape_string\" : \"string\""];

    let mut json_object = JsonObject::new();

    let json_key = JsonKey("string".to_string());
    let json_value = JsonValue::ValueString("string".to_string());
    json_object.members.insert(json_key, json_value);

    let json_key = JsonKey("escape_string".to_string());
    let json_value = JsonValue::ValueString("string".to_string());
    json_object.members.insert(json_key, json_value);

    let serialized_string =
        json_object.serialize(JsonSerializerNewLineKind::Lf, JsonSerializerIndentKind::Space(4)).unwrap();
    serialized_str_assert_eq(&serialized_string, &object_brackets, &member_lines);
    assert_eq!(serialized_string.lines().count(), 4);
}

#[test]
fn serialize_number() {
    let object_brackets = ("{", "}");
    let member_lines = [
        "    \"int\" : 1",
        "    \"minus_int\" : -1",
        "    \"float\" : 0.1",
        "    \"minus_float\" : -0.1",
    ];

    let mut json_object = JsonObject::new();

    let json_key = JsonKey("int".to_string());
    let json_value = JsonValue::ValueNumber(NumberType::Int(1));
    json_object.members.insert(json_key, json_value);

    let json_key = JsonKey("minus_int".to_string());
    let json_value = JsonValue::ValueNumber(NumberType::Int(-1));
    json_object.members.insert(json_key, json_value);

    let json_key = JsonKey("float".to_string());
    let json_value = float(0.1);
    json_object.members.insert(json_key, json_value);

    let json_key = JsonKey("minus_float".to_string());
    let json_value = float(-0.1);
    json_object.members.insert(json_key, json_value);

    let serialized_string =
        json_object.serialize(JsonSerializerNewLineKind::Lf, JsonSerializerIndentKind::Space(4)).unwrap();
    serialized_str_assert_eq(&serialized_string, &object_brackets, &member_lines);
    assert_eq!(serialized_string.lines().count(), 6);
}

#[test]
fn serialize_bool_null() {
    let object_brackets = ("{", "}");
    let member_lines = ["    \"true\" : true", "    \"false\" : false", "    \"null\" : null"];

    let mut json_object = JsonObject::new();

    let json_key = JsonKey("true".to_string());
    let json_value = JsonValue::ValueBool(true);
    json_object.members.insert(json_key, json_value);

    let json_key = JsonKey("false".to_string());
    let json_value = JsonValue::ValueBool(false);
    json_object.members.insert(json_key, json_value);

    let json_key = JsonKey("null".to_string());
    let json_value = JsonValue::ValueNull;
    json_object.members.insert(json_key, json_value);

    let serialized_string =
        json_object.serialize(JsonSerializerNewLineKind::Lf, JsonSerializerIndentKind::Space(4)).unwrap();
    serialized_str_assert_eq(&serialized_string, &object_brackets, &member_lines);
    assert_eq!(serialized_string.lines().count(), 5);
}

#[test]
fn serialize_array() {
    let object_brackets = ("{", "}");
    let member_lines = [
        "    \"empty_array\" : []",
        "    \"array_string\" : [ \"string1\", \"string2\", \"string3\"]",
        "    \"array_number\" : [ 1, 2, 3, 4, 5]",
        "    \"array_bool_null\" : [ true, false, null]",
        "    \"array_array\" : [ [ \"0,0\", \"0,1\"], [ \"1,0\", \"1,1\"]]",
    ];

    let mut json_object = JsonObject::new();

    let json_key = JsonKey("empty_array".to_string());
    let json_value = JsonValue::ValueArray(Vec::new());
    json_object.members.insert(json_key, json_value);

    let json_key = JsonKey("array_string".to_string());
    let json_value = JsonValue::ValueArray(vec![
        JsonValue::ValueString("string1".to_string()),
        JsonValue::ValueString("string2".to_string()),
        JsonValue::ValueString("string3".to_string()),
    ]);
    json_object.members.insert(json_key, json_value);

    let json_key = JsonKey("array_number".to_string());
    let json_value = JsonValue::ValueArray(vec![
        JsonValue::ValueNumber(NumberType::Int(1)),
        JsonValue::ValueNumber(NumberType::Int(2)),
        JsonValue::ValueNumber(NumberType::Int(3)),
        JsonValue::ValueNumber(NumberType::Int(4)),
        JsonValue::ValueNumber(NumberType::Int(5)),
    ]);
    json_object.members.insert(json_key, json_value);

    let json_key = JsonKey("array_bool_null".to_string());
    let json_value = JsonValue::ValueArray(vec![
        JsonValue::ValueBool(true),
        JsonValue::ValueBool(false),
        JsonValue::ValueNull,
    ]);
    json_object.members.insert(json_key, json_value);

    let json_key = JsonKey("array_array".to_string());
    let json_value = JsonValue::ValueArray(vec![
        JsonValue::ValueArray(vec![
            JsonValue::ValueString("0,0".to_string()),
            JsonValue::ValueString("0,1".to_string()),
        ]),
        JsonValue::ValueArray(vec![
            JsonValue::ValueString("1,0".to_string()),
            JsonValue::ValueString("1,1".to_string()),
        ]),
    ]);
    json_object.members.insert(json_key, json_value);

    let serialized_string =
        json_object.serialize(JsonSerializerNewLineKind::Lf, JsonSerializerIndentKind::Space(4)).unwrap();
    serialized_str_assert_eq(&serialized_string, &object_brackets, &member_lines);
    assert_eq!(serialized_string.lines().count(), 7);
}

#[test]
fn serialize_object() {
    // empty object
    let object_brackets = ("{", "}");
    let member_lines = ["    \"empty_object\" : {}"];

    let mut json_object = JsonObject::new();

    let json_key = JsonKey("empty_object".to_string());
    let json_value = JsonValue::ValueObject(JsonObject::new());
    json_object.members.insert(json_key, json_value);

    let serialized_string =
        json_object.serialize(JsonSerializerNewLineKind::Lf, JsonSerializerIndentKind::Space(4)).unwrap();
    serialized_str_assert_eq(&serialized_string, &object_brackets, &member_lines);
    assert_eq!(serialized_string.lines().count(), 3);

    // child object
    let mut json_child_object = JsonObject::new();
    let json_key = JsonKey("object_number".to_string());
    let json_value = JsonValue::ValueNumber(NumberType::Int(1));
    json_child_object.members.insert(json_key, json_value);

    let mut json_object = JsonObject::new();

    let json_key = JsonKey("object_object".to_string());
    let json_value = JsonValue::ValueObject(json_child_object);
    json_object.members.insert(json_key, json_value);

    let serialized_string =
        json_object.serialize(JsonSerializerNewLineKind::Lf, JsonSerializerIndentKind::Space(4)).unwrap();

    let mut serialized_lines = serialized_string.lines();
    assert_eq!("{", serialized_lines.next().unwrap());
    assert_eq!("    \"object_object\" : {", serialized_lines.next().unwrap());
    assert_eq!("        \"object_number\" : 1", serialized_lines.next().unwrap());
    assert_eq!("    }", serialized_lines.next().unwrap());
    assert_eq!("}", serialized_lines.next().unwrap());

    assert_eq!(serialized_string.lines().count(), 5);
}

#[test]
fn new_line() {
    // Lf
    let mut json_object = JsonObject::new();

    let json_key = JsonKey("Lf".to_string());
    let json_value = JsonValue::ValueObject(JsonObject::new());
    json_object.members.insert(json_key, json_value);

    let serialized_string =
        json_object.serialize(JsonSerializerNewLineKind::Lf, JsonSerializerIndentKind::Space(4)).unwrap();
    assert_eq!("{\u{000a}    \"Lf\" : {}\u{000a}}\u{000a}", serialized_string);

    // CrLf
    let mut json_object = JsonObject::new();

    let json_key = JsonKey("CrLf".to_string());
    let json_value = JsonValue::ValueObject(JsonObject::new());
    json_object.members.insert(json_key, json_value);

    let serialized_string =
        json_object.serialize(JsonSerializerNewLineKind::CrLf, JsonSerializerIndentKind::Space(4)).unwrap();
    assert_eq!("{\u{000d}\u{000a}    \"CrLf\" : {}\u{000d}\u{000a}}\u{000d}\u{000a}", serialized_string);
}

#[test]
fn indent() {
    // Tab
    let mut json_object = JsonObject::new();

    let json_key = JsonKey("Tab".to_string());
    let json_value = JsonValue::ValueObject(JsonObject::new());
    json_object.members.insert(json_key, json_value);

    let serialized_string =
        json_object.serialize(JsonSerializerNewLineKind::Lf, JsonSerializerIndentKind::Tab).unwrap();
    assert_eq!("{\u{000a}\u{0009}\"Tab\" : {}\u{000a}}\u{000a}", serialized_string);

    // Space(0)
    let mut json_object = JsonObject::new();

    let json_key = JsonKey("Space(0)".to_string());
    let json_value = JsonValue::ValueObject(JsonObject::new());
    json_object.members.insert(json_key, json_value);

    let serialized_string =
        json_object.serialize(JsonSerializerNewLineKind::Lf, JsonSerializerIndentKind::Space(0)).unwrap();
    assert_eq!("{\u{000a}\"Space(0)\" : {}\u{000a}}\u{000a}", serialized_string);

    // Space(10)
    let mut json_object = JsonObject::new();

    let json_key = JsonKey("Space(10)".to_string());
    let json_value = JsonValue::ValueObject(JsonObject::new());
    json_object.members.insert(json_key, json_value);

    let serialized_string =
        json_object.serialize(JsonSerializerNewLineKind::Lf, JsonSerializerIndentKind::Space(10)).unwrap();
    assert_eq!("{\u{000a}          \"Space(10)\" : {}\u{000a}}\u{000a}", serialized_string);
}

#[test]
fn empty_object_is_two_braces() {
    let styles = [
        (JsonSerializerNewLineKind::Lf, JsonSerializerIndentKind::Tab, "{}\n"),
        (JsonSerializerNewLineKind::Lf, JsonSerializerIndentKind::Space(0), "{}\n"),
        (JsonSerializerNewLineKind::Lf, JsonSerializerIndentKind::Space(3), "{}\n"),
        (JsonSerializerNewLineKind::CrLf, JsonSerializerIndentKind::Tab, "{}\r\n"),
        (JsonSerializerNewLineKind::CrLf, JsonSerializerIndentKind::Space(8), "{}\r\n"),
    ];
    for (newline_kind, indent_kind, expected) in styles {
        assert_eq!(JsonObject::new().serialize(newline_kind, indent_kind).unwrap(), expected);
    }
}

#[test]
fn non_finite_float_is_rejected() {
    for value in [f64::NAN, f64::INFINITY, f64::NEG_INFINITY] {
        let mut json_object = JsonObject::new();
        json_object.members.insert(JsonKey("ok".to_string()), float(1.5));
        json_object.members.insert(JsonKey("bad".to_string()), JsonValue::ValueArray(vec![float(value)]));
        let err = json_object
            .serialize(JsonSerializerNewLineKind::Lf, JsonSerializerIndentKind::Tab)
            .unwrap_err();
        assert_eq!(err.err_kind, JsonErrorKind::SerializeErrorInNumber);
        assert_eq!(
            err.op_additional_message,
            Some(format!("Number:  Number is NaN or Infinite. | {}", value))
        );
        assert_eq!(
            err.to_string(),
            format!("Serialize error in number : Number:  Number is NaN or Infinite. | {}", value)
        );
    }
}

#[test]
fn first_bad_float_is_reported() {
    let mut json_object = JsonObject::new();
    json_object
        .members
        .insert(JsonKey("a".to_string()), JsonValue::ValueNumber(NumberType::Float("1.".to_string())));
    json_object
        .members
        .insert(JsonKey("b".to_string()), JsonValue::ValueNumber(NumberType::Float("NaN".to_string())));
    let err =
        json_object.serialize(JsonSerializerNewLineKind::Lf, JsonSerializerIndentKind::Tab).unwrap_err();
    assert_eq!(err.op_additional_message, Some("Number:  Number is NaN or Infinite. | 1.".to_string()));
}

#[test]
fn string_escapes_on_output() {
    let mut json_object = JsonObject::new();
    json_object.members.insert(
        JsonKey("k\"\\".to_string()),
        JsonValue::ValueString("\"\\/\r\n\t\u{0008}\u{000C}\u{0000}\u{000B}\u{001F} \u{007F}\u{3042}\u{1F31F}".to_string()),
    );
    let serialized_string =
        json_object.serialize(JsonSerializerNewLineKind::Lf, JsonSerializerIndentKind::Space(1)).unwrap();
    assert_eq!(
        serialized_string,
        "{\n \"k\\\"\\\\\" : \"\\\"\\\\/\\r\\n\\t\\b\\f\\u0000\\u000b\\u001f \u{007F}\u{3042}\u{1F31F}\"\n}\n"
    );
}

#[test]
fn integers_in_decimal() {
    let mut json_object = JsonObject::new();
    json_object.members.insert(
        JsonKey("n".to_string()),
        JsonValue::ValueArray(vec![
            JsonValue::ValueNumber(NumberType::Int(0)),
            JsonValue::ValueNumber(NumberType::Int(10)),
            JsonValue::ValueNumber(NumberType::Int(-907)),
            JsonValue::ValueNumber(NumberType::Int(i64::MAX)),
            JsonValue::ValueNumber(NumberType::Int(i64::MIN)),
        ]),
    );
    let serialized_string =
        json_object.serialize(JsonSerializerNewLineKind::Lf, JsonSerializerIndentKind::Tab).unwrap();
    assert_eq!(
        serialized_string,
        "{\n\t\"n\" : [ 0, 10, -907, 9223372036854775807, -9223372036854775808]\n}\n"
    );
}

#[test]
fn objects_in_arrays_stand_on_lines_of_their_own() {
    let mut first = JsonObject::new();
    first.members.insert(JsonKey("a".to_string()), JsonValue::ValueNumber(NumberType::Int(1)));
    let mut second = JsonObject::new();
    second.members.insert(JsonKey("b".to_string()), JsonValue::ValueNumber(NumberType::Int(2)));
    let mut json_object = JsonObject::new();
    json_object.members.insert(
        JsonKey("k".to_string()),
        JsonValue::ValueArray(vec![JsonValue::ValueObject(first), JsonValue::ValueObject(second)]),
    );
    json_object.members.insert(JsonKey("z".to_string()), JsonValue::ValueNull);
    let serialized_string =
        json_object.serialize(JsonSerializerNewLineKind::Lf, JsonSerializerIndentKind::Space(2)).unwrap();
    assert_eq!(
        serialized_string,
        "{\n  \"k\" : [ \n    {\n      \"a\" : 1\n    }, \n    {\n      \"b\" : 2\n    }\n  ],\n  \"z\" : null\n}\n"
    );
}

#[test]
fn mixed_array_keeps_the_indentation() {
    let mut inner = JsonObject::new();
    inner.members.insert(JsonKey("a".to_string()), JsonValue::ValueBool(true));
    let mut json_object = JsonObject::new();
    json_object.members.insert(
        JsonKey("k".to_string()),
        JsonValue::ValueArray(vec![
            JsonValue::ValueNumber(NumberType::Int(1)),
            JsonValue::ValueObject(inner),
            JsonValue::ValueObject(JsonObject::new()),
        ]),
    );
    let serialized_string =
        json_object.serialize(JsonSerializerNewLineKind::Lf, JsonSerializerIndentKind::Tab).unwrap();
    assert_eq!(
        serialized_string,
        "{\n\t\"k\" : [ 1, \n\t\t{\n\t\t\t\"a\" : true\n\t\t}, \n\t\t{}\n\t]\n}\n"
    );
}
