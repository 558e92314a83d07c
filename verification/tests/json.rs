use bilibili_tui::json::{parse_json, parse_json_bytes, JsonValue};

#[test]
fn parses_objects_arrays_and_scalars() {
    let v = parse_json(r#"{"a": [1, -2, "x", null, true], "b": {"c": 18446744073709551615}}"#).unwrap();
    let a = v.get("a").unwrap().as_array().unwrap();
    assert_eq!(a.len(), 5);
    assert_eq!(a[0].as_i64(), Some(1));
    assert_eq!(a[1].as_i64(), Some(-2));
    assert_eq!(a[1].as_u64(), None);
    assert_eq!(a[2].as_str(), Some("x"));
    assert!(matches!(a[3], JsonValue::Null));
    assert!(matches!(a[4], JsonValue::Bool(true)));
    let c = v.get("b").unwrap().get("c").unwrap();
    assert_eq!(c.as_u64(), Some(u64::MAX));
    assert_eq!(c.as_i64(), None);
    assert!(v.get("missing").is_none());
}

#[test]
fn refuses_what_is_no_json() {
    assert!(parse_json("{").is_none());
    assert!(parse_json("").is_none());
    assert!(parse_json_bytes(b"\xff").is_none());
    assert!(parse_json_bytes(b"[1]").is_some());
}

#[test]
fn struct_fields_are_found_by_name_or_position() {
    let object = parse_json(r#"{"cmd": "X"}"#).unwrap();
    assert_eq!(object.struct_field(3, 0, "cmd").unwrap().unwrap().as_str(), Some("X"));
    let array = parse_json(r#"["Y", null]"#).unwrap();
    assert_eq!(array.struct_field(3, 0, "cmd").unwrap().unwrap().as_str(), Some("Y"));
    assert!(array.struct_field(3, 2, "data").unwrap().is_none());
    let long = parse_json(r#"[1, 2, 3, 4]"#).unwrap();
    assert!(long.struct_field(3, 0, "cmd").is_none());
    assert_eq!(long.element(3).unwrap().as_i64(), Some(4));
}

#[test]
fn text_and_bytes_holding_the_same_json_parse_alike() {
    let spaced = parse_json("{ \"a\" : [ 1 , \"x\" , { \"b\" : null } ] }").unwrap();
    let tight = parse_json_bytes(br#"{"a":[1,"x",{"b":null}]}"#).unwrap();
    assert_eq!(format!("{:?}", spaced), format!("{:?}", tight));
    let items = spaced.get("a").unwrap().as_array().unwrap();
    assert_eq!(items[1].as_str(), Some("x"));
    assert!(matches!(items[2].get("b"), Some(JsonValue::Null)));
}
