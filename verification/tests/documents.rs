use clickhouse_spans::codec::parse_json;
use clickhouse_spans::otlp::{convert_document, convert_events, convert_links, convert_span, Scope};
use clickhouse_spans::text_map::TextMap;
use clickhouse_spans::{ClickhouseEvents, ClickhouseLinks, ClickhouseSpan};

fn events(source: &str) -> ClickhouseEvents {
    convert_events(parse_json(source).unwrap().as_array().unwrap())
}

fn links(source: &str) -> ClickhouseLinks {
    convert_links(parse_json(source).unwrap().as_array().unwrap())
}

fn span(source: &str) -> ClickhouseSpan {
    let scope = Scope {
        service_name: "shop".to_string(),
        resource_attributes: TextMap::new(),
        scope_name: "lib".to_string(),
        scope_version: "1".to_string(),
    };
    convert_span(&parse_json(source).unwrap(), &scope)
}

fn rows(source: &str) -> Vec<ClickhouseSpan> {
    convert_document(&parse_json(source).unwrap())
}

#[test]
fn full_events_line_up() {
    let columns = events(
        "[{\"timeUnixNano\":\"1\",\"name\":\"a\",\"attributes\":[{\"key\":\"k\",\"value\":{\"stringValue\":\"v\"}}]},{\"timeUnixNano\":2,\"name\":\"b\",\"attributes\":[]}]",
    );
    assert_eq!(
        columns.Timestamp,
        ["1970-01-01 00:00:00.000000001", "1970-01-01 00:00:00.000000002"]
    );
    assert_eq!(columns.Name, ["a", "b"]);
    assert_eq!(columns.Attributes.len(), 2);
    assert_eq!(columns.Attributes[0].get("k"), Some(&"v".to_string()));
    assert_eq!(columns.Attributes[1].get("k"), None);
}

#[test]
fn events_without_a_time_have_no_timestamp() {
    let columns = events(
        "[{\"name\":\"a\"},{\"timeUnixNano\":0},{\"timeUnixNano\":\"0\"},{\"timeUnixNano\":\"x\"},{\"timeUnixNano\":-1},{\"timeUnixNano\":1.5},{\"timeUnixNano\":null}]",
    );
    assert!(columns.Timestamp.is_empty());
    assert_eq!(columns.Name, ["a"]);
    assert!(columns.Attributes.is_empty());
}

#[test]
fn times_are_read_from_texts() {
    let columns = events(
        "[{\"timeUnixNano\":\"+5\"},{\"timeUnixNano\":\"18446744073709551615\"},{\"timeUnixNano\":\"18446744073709551616\"},{\"timeUnixNano\":\"\"},{\"timeUnixNano\":\"+\"},{\"timeUnixNano\":\" 5\"},{\"timeUnixNano\":\"-5\"},{\"timeUnixNano\":\"007\"}]",
    );
    assert_eq!(
        columns.Timestamp,
        [
            "1970-01-01 00:00:00.000000005",
            "2554-07-21 23:34:33.709551615",
            "1970-01-01 00:00:00.000000007"
        ]
    );
}

#[test]
fn names_that_are_no_texts_are_empty() {
    let columns = events("[{\"name\":5},{\"name\":\"b\"},{\"attributes\":{}}]");
    assert_eq!(columns.Name, ["", "b"]);
    assert!(columns.Attributes.is_empty());
}

#[test]
fn full_links_line_up() {
    let columns = links(
        "[{\"traceId\":\"t1\",\"spanId\":\"s1\",\"traceState\":\"x\",\"attributes\":[]},{\"traceId\":\"t2\",\"spanId\":\"s2\",\"traceState\":\"\",\"attributes\":[{\"key\":\"k\",\"value\":{\"boolValue\":false}}]}]",
    );
    assert_eq!(columns.TraceId, ["t1", "t2"]);
    assert_eq!(columns.SpanId, ["s1", "s2"]);
    assert_eq!(columns.TraceState, ["x", ""]);
    assert_eq!(columns.Attributes.len(), 2);
    assert_eq!(columns.Attributes[1].get("k"), Some(&"false".to_string()));
}

#[test]
fn links_leave_out_what_is_missing() {
    let columns = links("[{\"traceId\":\"t1\"},{\"spanId\":7},{\"traceState\":\"x\"}]");
    assert_eq!(columns.TraceId, ["t1"]);
    assert_eq!(columns.SpanId, [""]);
    assert_eq!(columns.TraceState, ["x"]);
    assert!(columns.Attributes.is_empty());
}

#[test]
fn columns_of_two_lists_follow_each_other() {
    let first = "{\"timeUnixNano\":1,\"name\":\"a\",\"traceId\":\"t\",\"attributes\":[]}";
    let second = "{\"name\":\"b\",\"spanId\":\"s\",\"traceState\":\"x\"},{\"timeUnixNano\":2}";
    let both = format!("[{},{}]", first, second);
    let (first, second) = (format!("[{}]", first), format!("[{}]", second));

    let (one, other, all) = (events(&first), events(&second), events(&both));
    assert_eq!(all.Timestamp, [one.Timestamp, other.Timestamp].concat());
    assert_eq!(all.Name, [one.Name, other.Name].concat());
    assert_eq!(all.Attributes.len(), one.Attributes.len() + other.Attributes.len());

    let (one, other, all) = (links(&first), links(&second), links(&both));
    assert_eq!(all.TraceId, [one.TraceId, other.TraceId].concat());
    assert_eq!(all.SpanId, [one.SpanId, other.SpanId].concat());
    assert_eq!(all.TraceState, [one.TraceState, other.TraceState].concat());
    assert_eq!(all.Attributes.len(), one.Attributes.len() + other.Attributes.len());
}

#[test]
fn an_empty_span_has_the_defaults() {
    let row = span("{}");
    assert_eq!(row.Timestamp, "1970-01-01 00:00:00.000000000");
    assert_eq!(row.TraceId, "");
    assert_eq!(row.SpanId, "");
    assert_eq!(row.ParentSpanId, "");
    assert_eq!(row.TraceState, "");
    assert_eq!(row.SpanName, "");
    assert_eq!(row.SpanKind, "Unspecified");
    assert_eq!(row.ServiceName, "shop");
    assert_eq!(row.ScopeName, "lib");
    assert_eq!(row.ScopeVersion, "1");
    assert_eq!(row.Duration, 0);
    assert_eq!(row.StatusCode, "Unset");
    assert_eq!(row.StatusMessage, "");
    assert!(row.SpanAttributes.entries().is_empty());
    assert!(row.events_timestamp.is_empty());
    assert!(row.events_name.is_empty());
    assert!(row.events_attributes.is_empty());
    assert!(row.links_trace_id.is_empty());
    assert!(row.links_span_id.is_empty());
    assert!(row.links_trace_state.is_empty());
    assert!(row.links_attributes.is_empty());
}

#[test]
fn kinds_are_numbers() {
    assert_eq!(span("{\"kind\":3}").SpanKind, "Client");
    assert_eq!(span("{\"kind\":9}").SpanKind, "Unspecified");
    assert_eq!(span("{\"kind\":\"3\"}").SpanKind, "Unspecified");
    assert_eq!(span("{\"kind\":3.0}").SpanKind, "Unspecified");
    assert_eq!(span("{\"kind\":18446744073709551615}").SpanKind, "Unspecified");
}

#[test]
fn the_low_bits_of_a_kind_count() {
    assert_eq!(span("{\"kind\":4294967297}").SpanKind, "Internal");
    assert_eq!(span("{\"kind\":-4294967294}").SpanKind, "Server");
    assert_eq!(span("{\"status\":{\"code\":4294967298}}").StatusCode, "Error");
}

#[test]
fn durations_are_differences() {
    let row = span("{\"startTimeUnixNano\":\"1000\",\"endTimeUnixNano\":1500}");
    assert_eq!(row.Duration, 500);
    assert_eq!(row.Timestamp, "1970-01-01 00:00:00.000001000");
}

#[test]
fn durations_are_zero_where_a_time_is_missing() {
    assert_eq!(span("{\"endTimeUnixNano\":1500}").Duration, 0);
    assert_eq!(span("{\"startTimeUnixNano\":1500}").Duration, 0);
    assert_eq!(span("{\"startTimeUnixNano\":\"x\",\"endTimeUnixNano\":1500}").Duration, 0);
    assert_eq!(span("{\"startTimeUnixNano\":1500,\"endTimeUnixNano\":1000}").Duration, 0);
}

#[test]
fn a_status_has_a_code_and_a_message() {
    let row = span("{\"status\":{\"code\":2,\"message\":\"late\"}}");
    assert_eq!(row.StatusCode, "Error");
    assert_eq!(row.StatusMessage, "late");
    let row = span("{\"status\":{\"code\":\"2\",\"message\":1}}");
    assert_eq!(row.StatusCode, "Unset");
    assert_eq!(row.StatusMessage, "");
    assert_eq!(span("{\"status\":{\"code\":1}}").StatusCode, "Ok");
}

#[test]
fn a_document_has_one_row_for_each_span() {
    let found = rows(
        "{\"resourceSpans\":[{\"scopeSpans\":[{\"spans\":[{\"name\":\"a\"},{\"name\":\"b\"}]},{\"spans\":[{\"name\":\"c\"}]},{}]},{},{\"scopeSpans\":[{\"spans\":[{\"name\":\"d\"}]}]}]}",
    );
    let names: Vec<&str> = found.iter().map(|row| row.SpanName.as_str()).collect();
    assert_eq!(names, ["a", "b", "c", "d"]);
}

#[test]
fn rows_of_two_documents_follow_each_other() {
    let first = "{\"scopeSpans\":[{\"spans\":[{\"name\":\"a\"}]}]}";
    let second = "{\"scopeSpans\":[{\"spans\":[{\"name\":\"b\"}]}]}";
    let both = rows(&format!("{{\"resourceSpans\":[{},{}]}}", first, second));
    let one = rows(&format!("{{\"resourceSpans\":[{}]}}", first));
    let other = rows(&format!("{{\"resourceSpans\":[{}]}}", second));
    assert_eq!(both.len(), one.len() + other.len());
    assert_eq!(both[0].SpanName, one[0].SpanName);
    assert_eq!(both[1].SpanName, other[0].SpanName);
}

#[test]
fn rows_carry_resource_and_scope() {
    let found = rows(
        "{\"resourceSpans\":[{\"resource\":{\"attributes\":[{\"key\":\"service.name\",\"value\":{\"stringValue\":\"shop\"}},{\"key\":\"z\",\"value\":{\"intValue\":1}}]},\"scopeSpans\":[{\"scope\":{\"name\":\"lib\",\"version\":\"2\"},\"spans\":[{},{}]}]},{\"scopeSpans\":[{\"scope\":{\"name\":5},\"spans\":[{}]},{\"spans\":[{}]}]}]}",
    );
    assert_eq!(found.len(), 4);
    for row in &found[0..2] {
        assert_eq!(row.ServiceName, "shop");
        assert_eq!(row.ResourceAttributes.get("z"), Some(&"1".to_string()));
        assert_eq!(row.ScopeName, "lib");
        assert_eq!(row.ScopeVersion, "2");
    }
    for row in &found[2..4] {
        assert_eq!(row.ServiceName, "unknown_service");
        assert!(row.ResourceAttributes.entries().is_empty());
        assert_eq!(row.ScopeName, "");
        assert_eq!(row.ScopeVersion, "");
    }
}

#[test]
fn documents_without_spans_have_no_rows() {
    for source in ["{}", "[]", "null", "{\"resourceSpans\":{}}", "{\"resourceSpans\":[5]}"] {
        assert!(rows(source).is_empty());
    }
    assert!(rows("{\"resourceSpans\":[{\"scopeSpans\":[{\"spans\":5}]}]}").is_empty());
}
