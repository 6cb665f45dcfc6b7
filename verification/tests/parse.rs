use json_codec::{JsonKey, JsonObject, JsonValue, NumberType};

fn member<'a>(json_object: &'a JsonObject, json_key_str: &str) -> &'a JsonValue {
    json_object.members.get(&JsonKey(json_key_str.to_string())).unwrap()
}

fn member_assert_eq(json_object: &JsonObject, json_key_str: &str, expect_value: &JsonValue) {
    let parsed_value = member(json_object, json_key_str);
    assert_eq!(parsed_value, expect_value);
}

fn float_member(json_object: &JsonObject, json_key_str: &str) -> f64 {
    match member(json_object, json_key_str) {
        JsonValue::ValueNumber(NumberType::Float(literal)) => literal.parse::<f64>().unwrap(),
        other => panic!("not a float: {:?}", other),
    }
}

#[test]
fn parse_string() {
    let content_string = "{\n  \"string\": \"string\",\n  \"escape_string1\": \"escape_string1 doublequate:\\\" reversesolidus:\\\\ solidus:\\/\",\n  \"escape_string2\": \"escape_string2 BS:\\b FF:\\f LF:\\n CR:\\r HT:\\t\",\n  \"escape_string3\": \"escape_string3 A:\\u0041 \u{3042}:\\u3042 GlowingStar:\\ud83c\\udf1f\"\n}\n";
    let json_object = JsonObject::parse(content_string).unwrap();
    member_assert_eq(&json_object, "string", &JsonValue::ValueString("string".to_string()));
    member_assert_eq(
        &json_object,
        "escape_string1",
        &JsonValue::ValueString("escape_string1 doublequate:\" reversesolidus:\\ solidus:/".to_string()),
    );
    member_assert_eq(
        &json_object,
        "escape_string2",
        &JsonValue::ValueString("escape_string2 BS:\u{0008} FF:\u{000C} LF:\n CR:\r HT:\t".to_string()),
    );
    member_assert_eq(
        &json_object,
        "escape_string3",
        &JsonValue::ValueString("escape_string3 A:A \u{3042}:\u{3042} GlowingStar:\u{1F31F}".to_string()),
    );
    assert_eq!(json_object.members.len(), 4);
}

#[test]
fn parse_number() {
    let content_string = "{\n  \"int\": 1,\n  \"minus_int\": -1,\n  \"float\": 0.1,\n  \"minus_float\": -0.1,\n  \"exp\": 1.5e3,\n  \"minus_EXP\": -1.5E3,\n  \"exp_plus\": 1.5e+3,\n  \"minus_exp_minus\": -1.5e-3\n}\n";
    let json_object = JsonObject::parse(content_string).unwrap();
    member_assert_eq(&json_object, "int", &JsonValue::ValueNumber(NumberType::Int(1)));
    member_assert_eq(&json_object, "minus_int", &JsonValue::ValueNumber(NumberType::Int(-1)));
    assert_eq!(float_member(&json_object, "float"), 0.1);
    assert_eq!(float_member(&json_object, "minus_float"), -0.1);
    assert_eq!(float_member(&json_object, "exp"), 1500.0);
    assert_eq!(float_member(&json_object, "minus_EXP"), -1500.0);
    assert_eq!(float_member(&json_object, "exp_plus"), 1500.0);
    assert_eq!(float_member(&json_object, "minus_exp_minus"), -0.0015);
    assert_eq!(json_object.members.len(), 8);
}

#[test]
fn parse_bool_null() {
    let content_string = "{\n  \"true\": true,\n  \"false\": false,\n  \"null\": null\n}\n";
    let json_object = JsonObject::parse(content_string).unwrap();
    member_assert_eq(&json_object, "true", &JsonValue::ValueBool(true));
    member_assert_eq(&json_object, "false", &JsonValue::ValueBool(false));
    member_assert_eq(&json_object, "null", &JsonValue::ValueNull);
    assert_eq!(json_object.members.len(), 3);
}

#[test]
fn parse_array() {
    let content_string = "{\n  \"empty_array\": [],\n  \"array_string\": [\"string1\", \"string2\", \"string3\"],\n  \"array_number\": [1, 2, 3, 4, 5],\n  \"array_bool_null\": [true, false, null],\n  \"array_array\": [[\"0,0\", \"0,1\"], [\"1,0\", \"1,1\"]],\n  \"array_object\": [\n    {\"array_object_string\": \"array_objct_string1\", \"array_object_number\": 1.0},\n    {\"array_object_string\": \"array_objct_string2\", \"array_object_number\": 2.0}\n  ]\n}\n";
    let json_object = JsonObject::parse(content_string).unwrap();
    member_assert_eq(&json_object, "empty_array", &JsonValue::ValueArray(vec![]));
    member_assert_eq(
        &json_object,
        "array_string",
        &JsonValue::ValueArray(vec![
            JsonValue::ValueString("string1".to_string()),
            JsonValue::ValueString("string2".to_string()),
            JsonValue::ValueString("string3".to_string()),
        ]),
    );
    member_assert_eq(
        &json_object,
        "array_number",
        &JsonValue::ValueArray(vec![
            JsonValue::ValueNumber(NumberType::Int(1)),
            JsonValue::ValueNumber(NumberType::Int(2)),
            JsonValue::ValueNumber(NumberType::Int(3)),
            JsonValue::ValueNumber(NumberType::Int(4)),
            JsonValue::ValueNumber(NumberType::Int(5)),
        ]),
    );
    member_assert_eq(
        &json_object,
        "array_bool_null",
        &JsonValue::ValueArray(vec![
            JsonValue::ValueBool(true),
            JsonValue::ValueBool(false),
            JsonValue::ValueNull,
        ]),
    );
    member_assert_eq(
        &json_object,
        "array_array",
        &JsonValue::ValueArray(vec![
            JsonValue::ValueArray(vec![
                JsonValue::ValueString("0,0".to_string()),
                JsonValue::ValueString("0,1".to_string()),
            ]),
            JsonValue::ValueArray(vec![
                JsonValue::ValueString("1,0".to_string()),
                JsonValue::ValueString("1,1".to_string()),
            ]),
        ]),
    );

    if let JsonValue::ValueArray(json_array) = member(&json_object, "array_object") {
        assert_eq!(json_array.len(), 2);
        if let JsonValue::ValueObject(child_json_object) = &json_array[0] {
            member_assert_eq(
                child_json_object,
                "array_object_string",
                &JsonValue::ValueString("array_objct_string1".to_string()),
            );
            assert_eq!(float_member(child_json_object, "array_object_number"), 1.0);
            assert_eq!(child_json_object.members.len(), 2);
        } else {
            panic!();
        }
        if let JsonValue::ValueObject(child_json_object) = &json_array[1] {
            member_assert_eq(
                child_json_object,
                "array_object_string",
                &JsonValue::ValueString("array_objct_string2".to_string()),
            );
            assert_eq!(float_member(child_json_object, "array_object_number"), 2.0);
            assert_eq!(child_json_object.members.len(), 2);
        } else {
            panic!();
        }
    } else {
        panic!();
    }
    assert_eq!(json_object.members.len(), 6);
}

#[test]
fn parse_object() {
    let content_string = "{\n  \"empty_object\": {},\n  \"object\": {\n    \"object_string\": \"object_string\",\n    \"object_number\": 1,\n    \"object_bool\": true,\n    \"object_null\": null,\n    \"object_array\": [1, 2, 3],\n    \"object_object\": {\n      \"object_object_string\": \"object_object_string\",\n      \"object_object_number\": 1\n    }\n  }\n}\n";
    let json_object = JsonObject::parse(content_string).unwrap();
    if let JsonValue::ValueObject(child_json_object) = member(&json_object, "empty_object") {
        assert_eq!(child_json_object.members.len(), 0);
    } else {
        panic!();
    }
    if let JsonValue::ValueObject(child_json_object) = member(&json_object, "object") {
        member_assert_eq(
            child_json_object,
            "object_string",
            &JsonValue::ValueString("object_string".to_string()),
        );
        member_assert_eq(child_json_object, "object_number", &JsonValue::ValueNumber(NumberType::Int(1)));
        member_assert_eq(child_json_object, "object_bool", &JsonValue::ValueBool(true));
        member_assert_eq(child_json_object, "object_null", &JsonValue::ValueNull);
        member_assert_eq(
            child_json_object,
            "object_array",
            &JsonValue::ValueArray(vec![
                JsonValue::ValueNumber(NumberType::Int(1)),
                JsonValue::ValueNumber(NumberType::Int(2)),
                JsonValue::ValueNumber(NumberType::Int(3)),
            ]),
        );
        if let JsonValue::ValueObject(grand_child_json_object) = member(child_json_object, "object_object") {
            member_assert_eq(
                grand_child_json_object,
                "object_object_string",
                &JsonValue::ValueString("object_object_string".to_string()),
            );
            member_assert_eq(
                grand_child_json_object,
                "object_object_number",
                &JsonValue::ValueNumber(NumberType::Int(1)),
            );
            assert_eq!(grand_child_json_object.members.len(), 2);
        } else {
            panic!();
        }
        assert_eq!(child_json_object.members.len(), 6);
    } else {
        panic!();
    }
    assert_eq!(json_object.members.len(), 2);
}

#[test]
fn number_variant_selection() {
    let json_object =
        JsonObject::parse("{\"a\":1,\"b\":-1,\"c\":0.1,\"d\":1.5e3,\"e\":-1.5E-3,\"f\":1.5e+3}").unwrap();
    member_assert_eq(&json_object, "a", &JsonValue::ValueNumber(NumberType::Int(1)));
    member_assert_eq(&json_object, "b", &JsonValue::ValueNumber(NumberType::Int(-1)));
    member_assert_eq(&json_object, "c", &JsonValue::ValueNumber(NumberType::Float("0.1".to_string())));
    member_assert_eq(&json_object, "d", &JsonValue::ValueNumber(NumberType::Float("1.5e3".to_string())));
    assert_eq!(float_member(&json_object, "c"), 0.1);
    assert_eq!(float_member(&json_object, "d"), 1500.0);
    assert_eq!(float_member(&json_object, "e"), -0.0015);
    assert_eq!(float_member(&json_object, "f"), 1500.0);
}

#[test]
fn integer_limits() {
    let json_object = JsonObject::parse(
        "{\"max\":9223372036854775807,\"min\":-9223372036854775808,\"zeros\":0007,\"minus_zero\":-0}",
    )
    .unwrap();
    member_assert_eq(&json_object, "max", &JsonValue::ValueNumber(NumberType::Int(i64::MAX)));
    member_assert_eq(&json_object, "min", &JsonValue::ValueNumber(NumberType::Int(i64::MIN)));
    member_assert_eq(&json_object, "zeros", &JsonValue::ValueNumber(NumberType::Int(7)));
    member_assert_eq(&json_object, "minus_zero", &JsonValue::ValueNumber(NumberType::Int(0)));
}

#[test]
fn string_escapes_decode() {
    let json_object = JsonObject::parse("{\"k\":\"a\\\"b\\\\c\\/d\",\"star\":\"\\uD83C\\uDF1F\"}").unwrap();
    member_assert_eq(&json_object, "k", &JsonValue::ValueString("a\"b\\c/d".to_string()));
    member_assert_eq(&json_object, "star", &JsonValue::ValueString("\u{1F31F}".to_string()));
    if let JsonValue::ValueString(star) = member(&json_object, "star") {
        assert_eq!(star.chars().count(), 1);
    } else {
        panic!();
    }
}

#[test]
fn empty_object_has_no_members() {
    let json_object = JsonObject::parse("{}").unwrap();
    assert_eq!(json_object.members.len(), 0);
    let json_object = JsonObject::parse(" \t\r\n{ \n }").unwrap();
    assert_eq!(json_object.members.len(), 0);
}

#[test]
fn duplicate_key_keeps_last_value_and_first_place() {
    let json_object = JsonObject::parse("{\"a\":1,\"b\":2,\"a\":3}").unwrap();
    assert_eq!(json_object.members.len(), 2);
    member_assert_eq(&json_object, "a", &JsonValue::ValueNumber(NumberType::Int(3)));
    member_assert_eq(&json_object, "b", &JsonValue::ValueNumber(NumberType::Int(2)));
    assert_eq!(json_object.members.entry(0).key, JsonKey("a".to_string()));
    assert_eq!(json_object.members.entry(1).key, JsonKey("b".to_string()));
}

#[test]
fn text_after_the_object_is_not_read() {
    let json_object = JsonObject::parse("{\"a\":true} trailing").unwrap();
    member_assert_eq(&json_object, "a", &JsonValue::ValueBool(true));
}

#[test]
fn insert_and_get() {
    let mut json_object = JsonObject::new();
    assert_eq!(json_object.members.len(), 0);
    assert!(json_object.members.get(&JsonKey("a".to_string())).is_none());
    assert_eq!(json_object.members.insert(JsonKey("a".to_string()), JsonValue::ValueNull), None);
    assert_eq!(json_object.members.insert(JsonKey("b".to_string()), JsonValue::ValueBool(true)), None);
    assert_eq!(
        json_object.members.insert(JsonKey("a".to_string()), JsonValue::ValueBool(false)),
        Some(JsonValue::ValueNull)
    );
    assert_eq!(json_object.members.len(), 2);
    member_assert_eq(&json_object, "a", &JsonValue::ValueBool(false));
    assert_eq!(json_object.members.entry(0).key, JsonKey("a".to_string()));
}

#[test]
fn clone_copies_the_tree() {
    let json_object =
        JsonObject::parse("{\"a\":[1,{\"b\":[true,null,\"x\"]},2.5],\"c\":{\"d\":{}}}").unwrap();
    let copy = json_object.clone();
    assert_eq!(copy, json_object);
    let value = member(&json_object, "a").clone();
    assert_eq!(&value, member(&json_object, "a"));
}
