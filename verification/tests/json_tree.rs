use discord_data_loader::json::{parse_fields, parse_json, write_object, Json};

fn text(s: &str) -> Json {
    Json::String(s.to_string())
}

#[test]
fn scalars_are_read() {
    assert!(matches!(parse_json("null".as_bytes()), Some(Json::Null)));
    assert!(matches!(parse_json(" true ".as_bytes()), Some(Json::Bool(true))));
    assert!(matches!(parse_json("false".as_bytes()), Some(Json::Bool(false))));
    assert!(matches!(parse_json("0".as_bytes()), Some(Json::Int(0))));
    assert!(matches!(parse_json("-17".as_bytes()), Some(Json::Int(-17))));
    assert!(matches!(parse_json("9223372036854775807".as_bytes()), Some(Json::Int(i64::MAX))));
    assert!(matches!(parse_json("-9223372036854775808".as_bytes()), Some(Json::Int(i64::MIN))));
    assert!(matches!(parse_json("\"a\\nb\"".as_bytes()), Some(Json::String(s)) if s == "a\nb"));
}

#[test]
fn numbers_that_are_no_small_integers_keep_their_notation() {
    assert!(matches!(parse_json("18446744073709551615".as_bytes()), Some(Json::Decimal(s)) if s == "18446744073709551615"));
    assert!(matches!(parse_json("1.5".as_bytes()), Some(Json::Decimal(s)) if s == "1.5"));
    assert!(matches!(parse_json("-0.25".as_bytes()), Some(Json::Decimal(s)) if s == "-0.25"));
    assert!(matches!(parse_json("1.0".as_bytes()), Some(Json::Decimal(s)) if s == "1.0"));
}

#[test]
fn what_is_no_json_is_refused() {
    assert!(parse_json("".as_bytes()).is_none());
    assert!(parse_json("{".as_bytes()).is_none());
    assert!(parse_json("[1,]".as_bytes()).is_none());
    assert!(parse_json("1 2".as_bytes()).is_none());
    assert!(parse_json("'a'".as_bytes()).is_none());
}

#[test]
fn arrays_and_objects_are_read_in_depth() {
    let tree = parse_json(r#"{"b": [1, {"c": null}, []], "a": {"x": "y"}}"#.as_bytes()).unwrap();
    let a = tree.get("a").unwrap();
    assert!(matches!(a.get("x"), Some(Json::String(s)) if s == "y"));
    assert!(a.get("z").is_none());
    match tree.get("b") {
        Some(Json::Array(items)) => {
            assert_eq!(items.len(), 3);
            assert!(matches!(items[0], Json::Int(1)));
            assert!(matches!(items[1].get("c"), Some(Json::Null)));
            assert!(matches!(&items[2], Json::Array(inner) if inner.is_empty()));
        }
        _ => panic!("b is an array"),
    }
    assert!(tree.get("c").is_none());
    assert!(Json::Null.get("a").is_none());
}

#[test]
fn first_member_of_a_name_is_found() {
    let tree = Json::Object(vec![
        ("k".to_string(), Json::Int(1)),
        ("k".to_string(), Json::Int(2)),
    ]);
    assert!(matches!(tree.get("k"), Some(Json::Int(1))));
}

#[test]
fn typed_members() {
    let tree = parse_json(r#"{"s": "t", "n": null, "b": true, "i": 7, "l": ["a", "b"], "m": ["a", 1]}"#.as_bytes())
        .unwrap();
    assert_eq!(tree.text_field("s"), Some("t".to_string()));
    assert_eq!(tree.text_field("n"), None);
    assert_eq!(tree.text_field("missing"), None);
    assert_eq!(tree.optional_text_field("s"), Some(Some("t".to_string())));
    assert_eq!(tree.optional_text_field("n"), Some(None));
    assert_eq!(tree.optional_text_field("missing"), Some(None));
    assert_eq!(tree.optional_text_field("i"), None);
    assert_eq!(tree.bool_field("b"), Some(true));
    assert_eq!(tree.bool_field("s"), None);
    assert_eq!(tree.int_field("i", 0, 7), Some(7));
    assert_eq!(tree.int_field("i", 0, 6), None);
    assert_eq!(tree.int_field("i", 8, 9), None);
    assert_eq!(tree.int_field("s", 0, 9), None);
    assert_eq!(tree.get("l").unwrap().texts(), Some(vec!["a".to_string(), "b".to_string()]));
    assert_eq!(tree.get("m").unwrap().texts(), None);
    assert_eq!(tree.get("s").unwrap().texts(), None);
}

fn pair(name: &str, text: &str) -> (String, String) {
    (name.to_string(), text.to_string())
}

#[test]
fn fields_of_an_object() {
    let fields = parse_fields(
        br#" {"s": "q\"t", "n": 1.50, "i": -7, "l": [1, {"k": null} , "x"], "o": {"b": true, "a": 1}} "#,
    )
    .unwrap();
    let names: Vec<&str> = fields.iter().map(|f| f.name.as_str()).collect();
    assert_eq!(names, vec!["i", "l", "n", "o", "s"]);
    let texts: Vec<&str> = fields.iter().map(|f| f.text.as_str()).collect();
    assert_eq!(texts, vec!["-7", "[1,{\"k\":null},\"x\"]", "1.5", "{\"a\":1,\"b\":true}", "\"q\\\"t\""]);
    assert!(matches!(fields[0].value, Json::Int(-7)));
    assert!(matches!(&fields[1].value, Json::Array(items) if items.len() == 3));
    assert!(matches!(&fields[2].value, Json::Decimal(t) if t == "1.5"));
    assert!(matches!(fields[3].value.get("b"), Some(Json::Bool(true))));
    assert!(matches!(&fields[4].value, Json::String(t) if t == "q\"t"));
}

#[test]
fn fields_of_what_is_no_object() {
    assert_eq!(parse_fields(b"{}").unwrap().len(), 0);
    assert!(parse_fields(b"[]").is_none());
    assert!(parse_fields(b"null").is_none());
    assert!(parse_fields(b"{").is_none());
    assert!(parse_fields(b"").is_none());
    assert!(parse_fields(b"\xff{}").is_none());
}

#[test]
fn field_texts_agree_with_serde_json() {
    let source = r#"{"a": [1, 2.5, -3, "x\ty", null, true, {"z": []}], "b": {"c": "d'e", "f": 18446744073709551615}, "g": "\u00e9\u0001\"\\"}"#;
    let fields = parse_fields(source.as_bytes()).unwrap();
    let value: serde_json::Value = serde_json::from_str(source).unwrap();
    for field in &fields {
        assert_eq!(field.text, serde_json::to_string(&value[field.name.as_str()]).unwrap());
    }
    let members: Vec<(String, String)> =
        fields.iter().map(|f| (f.name.clone(), f.text.clone())).collect();
    assert_eq!(write_object(&members), serde_json::to_string(&value).unwrap());
}

#[test]
fn object_is_written_member_by_member() {
    assert_eq!(write_object(&vec![]), "{}");
    assert_eq!(write_object(&vec![pair("foo", "\"bar\"")]), "{\"foo\":\"bar\"}");
    assert_eq!(
        write_object(&vec![pair("b", "[1,2]"), pair("a\"\n", "null"), pair("", "{}")]),
        "{\"b\":[1,2],\"a\\\"\\n\":null,\"\":{}}"
    );
}

#[test]
fn copy_of_a_tree_holds_the_same() {
    let tree = parse_json(br#"{"a": [1, "x", null, {"b": false}], "n": 2.5}"#).unwrap();
    let copy = tree.copy();
    assert!(matches!(copy.get("n"), Some(Json::Decimal(t)) if t == "2.5"));
    match copy.get("a") {
        Some(Json::Array(items)) => {
            assert_eq!(items.len(), 4);
            assert!(matches!(items[0], Json::Int(1)));
            assert!(matches!(&items[1], Json::String(t) if t == "x"));
            assert!(matches!(items[2], Json::Null));
            assert!(matches!(items[3].get("b"), Some(Json::Bool(false))));
        }
        _ => panic!("a is an array"),
    }
}
