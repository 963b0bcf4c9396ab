use didkit::json::{
    json_clone, json_eq, to_canonical_bytes, to_canonical_string_opt, wf_check, JsonValue,
};
use didkit::parse::parse_json;

fn obj(fields: Vec<(&str, JsonValue)>) -> JsonValue {
    JsonValue::Object(
        fields.into_iter().map(|(k, v)| (k.to_string(), v)).collect(),
    )
}

fn sample_value() -> JsonValue {
    obj(vec![
        ("arr", JsonValue::Array(vec![
            JsonValue::Int(0),
            JsonValue::Int(-42),
            JsonValue::Int(9007199254740991),
            JsonValue::Bool(true),
            JsonValue::Bool(false),
            JsonValue::Null,
        ])),
        ("emptyArr", JsonValue::Array(vec![])),
        ("emptyObj", JsonValue::Object(vec![])),
        ("text", JsonValue::Text("quote \" backslash \\ tab \t newline \n plain".to_string())),
        ("unicode", JsonValue::Text("héllo wörld ☃".to_string())),
    ])
}

#[test]
fn canonical_bytes_match_jcs() {
    let v = sample_value();
    let ours = String::from_utf8(to_canonical_bytes(&v)).unwrap();
    let text = "{\"arr\":[0,-42,9007199254740991,true,false,null],\"emptyArr\":[],\"emptyObj\":{},\"text\":\"quote \\\" backslash \\\\ tab \\t newline \\n plain\",\"unicode\":\"héllo wörld ☃\"}";
    let value: serde_json::Value = serde_json::from_str(text).unwrap();
    let theirs = serde_jcs::to_string(&value).unwrap();
    assert_eq!(ours, theirs);
}

#[test]
fn control_characters_use_lowercase_hex_escapes() {
    let v = JsonValue::Text("a\u{1}b\u{1f}c".to_string());
    let ours = String::from_utf8(to_canonical_bytes(&v)).unwrap();
    let value = serde_json::Value::String("a\u{1}b\u{1f}c".to_string());
    let theirs = serde_jcs::to_string(&value).unwrap();
    assert_eq!(ours, theirs);
    assert_eq!(ours, "\"a\\u0001b\\u001fc\"");
}

#[test]
fn canonical_text_round_trips_through_parser() {
    let v = sample_value();
    let bytes = to_canonical_bytes(&v);
    let parsed = parse_json(&bytes).unwrap();
    assert!(json_eq(&parsed, &v));
    assert_eq!(to_canonical_bytes(&parsed), bytes);
}

#[test]
fn parser_rejects_non_canonical_text() {
    assert!(parse_json(b"{\"b\":1,\"a\":2}").is_none(), "unsorted keys");
    assert!(parse_json(b"{\"a\": 1}").is_none(), "whitespace");
    assert!(parse_json(b"01").is_none(), "leading zero");
    assert!(parse_json(b"-0").is_none(), "negative zero");
    assert!(parse_json(b"\"\\u0041\"").is_none(), "non-minimal escape");
    assert!(parse_json(b"[1,2,]").is_none(), "trailing comma");
    assert!(parse_json(b"{\"a\":1,\"a\":2}").is_none(), "repeated key");
}

#[test]
fn parser_accepts_canonical_values() {
    assert!(matches!(parse_json(b"null"), Some(JsonValue::Null)));
    assert!(matches!(parse_json(b"true"), Some(JsonValue::Bool(true))));
    assert!(matches!(parse_json(b"-7"), Some(JsonValue::Int(-7))));
    assert!(matches!(parse_json(b"9223372036854775807"), Some(JsonValue::Int(i64::MAX))));
    assert!(matches!(parse_json(b"-9223372036854775808"), Some(JsonValue::Int(i64::MIN))));
    let parsed = parse_json("\"héllo\"".as_bytes()).unwrap();
    assert!(matches!(parsed, JsonValue::Text(ref s) if s == "héllo"));
}

#[test]
fn wf_check_spots_unsorted_objects() {
    let good = obj(vec![("a", JsonValue::Null), ("b", JsonValue::Null)]);
    let bad = obj(vec![("b", JsonValue::Null), ("a", JsonValue::Null)]);
    assert!(wf_check(&good));
    assert!(!wf_check(&bad));
    assert!(to_canonical_string_opt(&good).is_some());
    assert!(to_canonical_string_opt(&bad).is_none());
}

#[test]
fn json_clone_and_eq_are_structural() {
    let v = sample_value();
    let w = json_clone(&v);
    assert!(json_eq(&v, &w));
    let other = obj(vec![("different", JsonValue::Null)]);
    assert!(!json_eq(&v, &other));
}

#[test]
fn parser_reads_minimal_control_escapes() {
    let v = JsonValue::Text("a\u{1}b\u{1f}c".to_string());
    let bytes = to_canonical_bytes(&v);
    let parsed = parse_json(&bytes).expect("canonical control escapes parse");
    assert!(json_eq(&parsed, &v));
    assert_eq!(to_canonical_bytes(&parsed), bytes);
}
