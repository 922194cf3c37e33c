use arrpc::json::{collect_field, value_from_json, Json, JsonError, JsonNumber, JsonObject};

fn json(text: &str) -> Json {
    Json::parse(text).unwrap()
}

#[test]
fn values_are_read_and_written() {
    let text = r#"{"a":[1,-2,true,null,"x\n"],"b":{"c":18446744073709551615}}"#;
    let value = json(text);
    assert_eq!(value.print().unwrap(), text);
    assert_eq!(value.print_bytes().unwrap(), text.as_bytes());
    assert_eq!(Json::parse_bytes(text.as_bytes()).unwrap(), value);
    assert_eq!(
        json("[1,{}]").print_pretty().unwrap(),
        b"[\n  1,\n  {}\n]".to_vec()
    );
}

#[test]
fn malformed_texts_are_refused() {
    assert!(matches!(Json::parse("[1,]"), Err(JsonError::Malformed(_))));
    assert!(matches!(Json::parse_bytes(b"\xff"), Err(JsonError::Malformed(_))));
}

#[test]
fn nesting_is_bounded() {
    let nested = |depth: usize| format!("{}{}", "[".repeat(depth), "]".repeat(depth));
    assert!(Json::parse(&nested(127)).is_ok());
    assert!(Json::parse(&nested(128)).is_err());
}

#[test]
fn numbers_keep_their_range() {
    assert_eq!(json("-1").as_i64(), Some(-1));
    assert_eq!(json("-1").as_u64(), None);
    assert_eq!(json("9223372036854775808").as_i64(), None);
    assert_eq!(json("9223372036854775808").as_u64(), Some(9223372036854775808));
    assert_eq!(json("1.0").as_u64(), None);
    assert_eq!(json("1.0").as_i64(), None);
    assert!(json("1e300").is_number());
    assert_eq!(Json::Number(JsonNumber::Signed(7)).as_u64(), Some(7));
    assert_eq!(Json::Number(JsonNumber::Signed(7)).print().unwrap(), "7");
    assert_eq!(json("1.5").print().unwrap(), "1.5");
}

#[test]
fn values_are_equal_whatever_the_order_of_their_entries() {
    assert_eq!(json(r#"{"a": 1, "b": [true]}"#), json(r#"{"b": [true], "a": 1}"#));
    assert_ne!(json(r#"{"a": 1}"#), json(r#"{"a": 2}"#));
    assert_ne!(json(r#"{"a": 1}"#), json(r#"{"a": 1, "b": null}"#));
    assert_ne!(json("[1, 2]"), json("[2, 1]"));
    assert_ne!(json("1"), json("1.0"));
    assert_eq!(json("0.0"), json("-0.0"));
}

#[test]
fn the_last_of_equal_keys_counts() {
    let value = json(r#"{"a": 1, "a": 2}"#);
    assert_eq!(value.get_u64("a"), Some(2));
    let object = JsonObject {
        entries: vec![
            ("a".to_owned(), Json::unsigned(1)),
            ("b".to_owned(), Json::Null),
            ("a".to_owned(), Json::unsigned(2)),
        ],
    };
    assert_eq!(object.get("a"), Some(&Json::unsigned(2)));
    assert_eq!(Json::Object(object).print().unwrap(), r#"{"a":2,"b":null}"#);
}

#[test]
fn objects_are_built_and_extended() {
    let mut object = JsonObject::new().with("a", Json::text("x")).with("b", Json::Bool(true));
    object.insert("a", Json::text("y"));
    object.extend(&JsonObject::new().with("b", Json::Null).with("c", Json::unsigned(3)));
    assert!(object.contains_key("c"));
    assert!(!object.contains_key("d"));
    assert_eq!(Json::Object(object).print().unwrap(), r#"{"a":"y","b":null,"c":3}"#);
}

#[test]
fn fields_are_read_by_type() {
    let value = json(r#"{"t": "x", "n": 5, "b": false, "z": null}"#);
    assert_eq!(value.get_str("t"), Some("x"));
    assert_eq!(value.get_str("n"), None);
    assert_eq!(value.get_u64("n"), Some(5));
    assert!(value.get("b").unwrap().is_boolean());
    assert!(value.get("z").unwrap().is_null());
    assert!(value.get("t").unwrap().is_text());
    assert_eq!(value.get("none"), None);
    assert_eq!(value.get_or_null("none"), Json::Null);
    assert_eq!(json("[]").get("t"), None);
    assert_eq!(
        collect_field(&vec![value, json("{}"), json(r#"{"t": "y"}"#)], "t"),
        vec!["x".to_owned(), "y".to_owned()]
    );
}

#[test]
fn values_pass_over_to_serde_json() {
    let value = json(r#"{"a": [1, -1, 0.5, "x", null, true]}"#);
    let outside = value_from_json(&value);
    assert_eq!(outside["a"][0], 1);
    assert_eq!(outside["a"][1], -1);
    assert_eq!(outside["a"][2], 0.5);
    assert_eq!(outside["a"][3], "x");
    assert!(outside["a"][4].is_null());
    assert_eq!(outside["a"][5], true);
}
