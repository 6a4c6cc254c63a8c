use clickhouse_spans::attributes::{attribute_value, convert_attributes, Attributes};
use clickhouse_spans::codec::parse_json;
use clickhouse_spans::json::Json;

fn value(source: &str) -> String {
    attribute_value(&parse_json(source).unwrap())
}

fn attributes(source: &str) -> Attributes {
    convert_attributes(parse_json(source).unwrap().as_array().unwrap())
}

fn get(attributes: &Attributes, key: &str) -> Option<String> {
    attributes.get(key).cloned()
}

#[test]
fn texts_stand_for_themselves() {
    assert_eq!(value("{\"stringValue\":\"a\\\"b\"}"), "a\"b");
    assert_eq!(value("{\"stringValue\":\"\"}"), "");
}

#[test]
fn a_string_value_that_is_no_text_is_empty() {
    assert_eq!(value("{\"stringValue\":5}"), "");
    assert_eq!(value("{\"stringValue\":null,\"intValue\":5}"), "");
}

#[test]
fn other_values_stand_as_json() {
    assert_eq!(value("{\"intValue\":200}"), "200");
    assert_eq!(value("{\"intValue\":-3}"), "-3");
    assert_eq!(value("{\"intValue\":\"200\"}"), "\"200\"");
    assert_eq!(value("{\"doubleValue\":0.25}"), "0.25");
    assert_eq!(value("{\"boolValue\":true}"), "true");
    assert_eq!(value("{\"boolValue\":null}"), "null");
}

#[test]
fn the_first_known_type_counts() {
    assert_eq!(value("{\"boolValue\":true,\"doubleValue\":0.5,\"intValue\":1}"), "1");
    assert_eq!(value("{\"boolValue\":true,\"doubleValue\":0.5}"), "0.5");
    assert_eq!(value("{\"boolValue\":true,\"stringValue\":\"s\"}"), "s");
}

#[test]
fn values_of_unknown_types_are_empty() {
    assert_eq!(value("{\"arrayValue\":{\"values\":[]}}"), "");
    assert_eq!(value("{}"), "");
    assert_eq!(value("7"), "");
}

#[test]
fn attributes_are_kept_by_key() {
    let map = attributes(
        "[{\"key\":\"a\",\"value\":{\"stringValue\":\"x\"}},{\"key\":\"b\",\"value\":{\"intValue\":1}}]",
    );
    assert_eq!(get(&map, "a"), Some("x".to_string()));
    assert_eq!(get(&map, "b"), Some("1".to_string()));
    assert_eq!(get(&map, "c"), None);
    assert_eq!(map.entries().len(), 2);
}

#[test]
fn attributes_without_key_or_value_are_left_out() {
    let map = attributes("[{\"value\":{\"intValue\":1}},{\"key\":\"b\"},5,null]");
    assert!(map.entries().is_empty());
    assert!(convert_attributes(&[]).entries().is_empty());
}

#[test]
fn a_key_that_is_no_text_is_the_empty_key() {
    let map = attributes("[{\"key\":5,\"value\":{\"intValue\":1}}]");
    assert_eq!(get(&map, ""), Some("1".to_string()));
}

#[test]
fn of_two_attributes_the_later_one_counts() {
    let first = "{\"key\":\"a\",\"value\":{\"intValue\":1}}";
    let second = "{\"key\":\"a\",\"value\":{\"intValue\":2}}";
    let map = attributes(&format!("[{},{}]", first, second));
    assert_eq!(get(&map, "a"), Some("2".to_string()));
    assert_eq!(map.entries().len(), 1);
}

#[test]
fn a_json_text_is_an_attribute_value() {
    let value = Json::Object(vec![("stringValue".to_string(), Json::Text("t".to_string()))]);
    assert_eq!(attribute_value(&value), "t");
}
