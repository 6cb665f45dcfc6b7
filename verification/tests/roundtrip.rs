use json_codec::{
    JsonKey, JsonObject, JsonSerializerIndentKind, JsonSerializerNewLineKind, JsonValue, NumberType,
};

fn sample() -> JsonObject {
    let mut inner = JsonObject::new();
    inner.members.insert(JsonKey("text".to_string()), JsonValue::ValueString("a\"b\\c/d\n\u{0001}\u{1F31F}".to_string()));
    inner.members.insert(JsonKey("".to_string()), JsonValue::ValueObject(JsonObject::new()));
    let mut other = JsonObject::new();
    other.members.insert(JsonKey("n".to_string()), JsonValue::ValueNull);
    let mut json_object = JsonObject::new();
    json_object.members.insert(JsonKey("int".to_string()), JsonValue::ValueNumber(NumberType::Int(i64::MIN)));
    json_object
        .members
        .insert(JsonKey("float".to_string()), JsonValue::ValueNumber(NumberType::Float("-1.5E-3".to_string())));
    json_object.members.insert(JsonKey("t".to_string()), JsonValue::ValueBool(true));
    json_object.members.insert(JsonKey("f".to_string()), JsonValue::ValueBool(false));
    json_object.members.insert(JsonKey("null".to_string()), JsonValue::ValueNull);
    json_object.members.insert(JsonKey("empty".to_string()), JsonValue::ValueArray(vec![]));
    json_object.members.insert(
        JsonKey("array".to_string()),
        JsonValue::ValueArray(vec![
            JsonValue::ValueNumber(NumberType::Int(1)),
            JsonValue::ValueArray(vec![JsonValue::ValueBool(false), JsonValue::ValueArray(vec![])]),
            JsonValue::ValueObject(inner),
            JsonValue::ValueString("x".to_string()),
            JsonValue::ValueObject(other),
        ]),
    );
    json_object.members.insert(JsonKey("last".to_string()), JsonValue::ValueObject(JsonObject::new()));
    json_object
}

#[test]
fn parse_inverts_serialize_in_every_style() {
    let styles = [
        (JsonSerializerNewLineKind::Lf, JsonSerializerIndentKind::Tab),
        (JsonSerializerNewLineKind::Lf, JsonSerializerIndentKind::Space(0)),
        (JsonSerializerNewLineKind::Lf, JsonSerializerIndentKind::Space(4)),
        (JsonSerializerNewLineKind::CrLf, JsonSerializerIndentKind::Tab),
        (JsonSerializerNewLineKind::CrLf, JsonSerializerIndentKind::Space(0)),
        (JsonSerializerNewLineKind::CrLf, JsonSerializerIndentKind::Space(2)),
    ];
    for (newline_kind, indent_kind) in styles {
        let json_object = sample();
        let serialized_string = json_object.serialize(newline_kind, indent_kind).unwrap();
        let parsed = JsonObject::parse(&serialized_string).unwrap();
        assert_eq!(parsed, json_object);
    }
}

#[test]
fn members_survive_the_round_trip() {
    let json_object = sample();
    let serialized_string =
        json_object.serialize(JsonSerializerNewLineKind::CrLf, JsonSerializerIndentKind::Space(3)).unwrap();
    let parsed = JsonObject::parse(&serialized_string).unwrap();
    assert_eq!(parsed.members.len(), json_object.members.len());
    for i in 0..json_object.members.len() {
        let member = json_object.members.entry(i);
        assert_eq!(parsed.members.get(&member.key), Some(&member.value));
    }
}

#[test]
fn float_without_fraction_comes_back_as_int() {
    let mut json_object = JsonObject::new();
    json_object
        .members
        .insert(JsonKey("n".to_string()), JsonValue::ValueNumber(NumberType::Float(format!("{}", 1500.0f64))));
    let serialized_string =
        json_object.serialize(JsonSerializerNewLineKind::Lf, JsonSerializerIndentKind::Tab).unwrap();
    assert_eq!(serialized_string, "{\n\t\"n\" : 1500\n}\n");
    let parsed = JsonObject::parse(&serialized_string).unwrap();
    assert_eq!(
        parsed.members.get(&JsonKey("n".to_string())),
        Some(&JsonValue::ValueNumber(NumberType::Int(1500)))
    );
}
