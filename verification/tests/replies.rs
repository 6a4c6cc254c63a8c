use clickhouse_spans::codec::{parse_json, to_value};
use clickhouse_spans::reply::{hello_message, json_response};

#[test]
fn a_name_is_greeted() {
    assert_eq!(hello_message("Ada").to_text(), "{\"message\":\"Hello, Ada!\"}");
    assert_eq!(hello_message("").to_text(), "{\"message\":\"Hello, !\"}");
}

#[test]
fn a_name_with_quotes_is_greeted() {
    let message = hello_message("\"Bob\"\n");
    assert_eq!(message.text_at("message"), Some("Hello, \"Bob\"\n!"));
    assert_eq!(parse_json(&message.to_text()).unwrap(), message);
}

#[test]
fn a_response_names_its_content_type() {
    let response = json_response(&hello_message("Ada"));
    assert_eq!(
        to_value(&response).to_string(),
        "{\"body\":\"{\\\"message\\\":\\\"Hello, Ada!\\\"}\",\"headers\":{\"Content-Type\":\"application/json\"},\"statusCode\":200}"
    );
}

#[test]
fn the_body_of_a_response_is_json() {
    let body = hello_message("Ada");
    let response = json_response(&body);
    assert_eq!(parse_json(response.text_at("body").unwrap()).unwrap(), body);
}
