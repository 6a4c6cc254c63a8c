use clickhouse_spans::codec::{from_value, parse_json, to_value};
use clickhouse_spans::json::Json;

fn text(s: &str) -> Json {
    Json::Text(s.to_string())
}

fn entry(key: &str, value: Json) -> (String, Json) {
    (key.to_string(), value)
}

#[test]
fn every_kind_of_value_is_read() {
    assert_eq!(parse_json("null").unwrap(), Json::Null);
    assert_eq!(parse_json("true").unwrap(), Json::Bool(true));
    assert_eq!(parse_json("7").unwrap(), Json::Unsigned(7));
    assert_eq!(parse_json("-7").unwrap(), Json::Signed(-7));
    assert_eq!(parse_json("18446744073709551615").unwrap(), Json::Unsigned(u64::MAX));
    assert_eq!(parse_json("-9223372036854775808").unwrap(), Json::Signed(i64::MIN));
    assert!(matches!(parse_json("1.5").unwrap(), Json::Float(_)));
    assert!(matches!(parse_json("18446744073709551616").unwrap(), Json::Float(_)));
    assert_eq!(parse_json(" \"a\\nb\" ").unwrap(), text("a\nb"));
    assert_eq!(parse_json("[1,[]]").unwrap(), Json::Array(vec![Json::Unsigned(1), Json::Array(vec![])]));
    assert_eq!(
        parse_json("{\"b\":1,\"a\":{}}").unwrap(),
        Json::Object(vec![entry("a", Json::Object(vec![])), entry("b", Json::Unsigned(1))])
    );
}

#[test]
fn what_is_no_json_is_refused() {
    for bad in ["", "{", "nul", "[1,]", "1 2", "\"a", "{\"a\" 1}"] {
        assert!(parse_json(bad).is_err());
    }
}

#[test]
fn the_later_of_two_entries_counts() {
    let parsed = parse_json("{\"a\":1,\"a\":2}").unwrap();
    assert_eq!(parsed.get("a"), Some(&Json::Unsigned(2)));
    let made = Json::Object(vec![entry("a", Json::Unsigned(1)), entry("a", Json::Unsigned(2))]);
    assert_eq!(made.get("a"), Some(&Json::Unsigned(2)));
    assert_eq!(made.to_text(), "{\"a\":2}");
}

#[test]
fn values_are_written_compactly() {
    assert_eq!(Json::Null.to_text(), "null");
    assert_eq!(Json::Bool(false).to_text(), "false");
    assert_eq!(Json::Unsigned(u64::MAX).to_text(), "18446744073709551615");
    assert_eq!(Json::Signed(-1).to_text(), "-1");
    assert_eq!(parse_json("2.50").unwrap().to_text(), "2.5");
    assert_eq!(text("a\"\\\n\u{1}é").to_text(), "\"a\\\"\\\\\\n\\u0001é\"");
    assert_eq!(
        Json::Array(vec![text("x"), Json::Object(vec![entry("k", text("v"))])]).to_text(),
        "[\"x\",{\"k\":\"v\"}]"
    );
}

#[test]
fn values_go_out_and_come_back() {
    let source = "{\"a\":[null,true,1,-1,0.5,\"t\"],\"b\":{\"c\":[]}}";
    let value = parse_json(source).unwrap();
    assert_eq!(from_value(&to_value(&value)), value);
    assert_eq!(value.to_text(), source);
    assert_eq!(parse_json(&value.to_text()).unwrap(), value);
}

#[test]
fn values_of_serde_json_are_taken_over() {
    let value = serde_json::Value::Array(vec![
        serde_json::Value::Null,
        serde_json::Value::from(-3i64),
        serde_json::Value::from(3u64),
        serde_json::Value::from("t"),
    ]);
    let expected = Json::Array(vec![Json::Null, Json::Signed(-3), Json::Unsigned(3), text("t")]);
    assert_eq!(from_value(&value), expected);
    assert_eq!(to_value(&expected), value);
}

#[test]
fn members_are_found_by_key() {
    let value = parse_json("{\"t\":\"x\",\"n\":5,\"l\":[1]}").unwrap();
    assert_eq!(value.get("missing"), None);
    assert_eq!(Json::Array(vec![]).get("t"), None);
    assert_eq!(value.text_at("t"), Some("x"));
    assert_eq!(value.text_at("n"), None);
    assert_eq!(value.array_at("l"), Some(&vec![Json::Unsigned(1)]));
    assert_eq!(value.array_at("t"), None);
}

#[test]
fn integers_are_taken_where_they_fit() {
    assert_eq!(Json::Unsigned(5).as_i64(), Some(5));
    assert_eq!(Json::Unsigned(u64::MAX).as_i64(), None);
    assert_eq!(Json::Unsigned(u64::MAX).as_u64(), Some(u64::MAX));
    assert_eq!(Json::Signed(-5).as_i64(), Some(-5));
    assert_eq!(Json::Signed(-5).as_u64(), None);
    assert_eq!(parse_json("5.0").unwrap().as_i64(), None);
    assert_eq!(parse_json("5.0").unwrap().as_u64(), None);
    assert_eq!(text("5").as_u64(), None);
}
