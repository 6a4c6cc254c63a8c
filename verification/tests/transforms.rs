use clickhouse_spans::codec::parse_json;
use clickhouse_spans::text::split_lines;
use clickhouse_spans::{select_spans, transform_otlp_to_clickhouse};

fn document(spans: &str) -> String {
    format!("{{\"resourceSpans\":[{{\"scopeSpans\":[{{\"spans\":[{}]}}]}}]}}", spans)
}

#[test]
fn a_span_becomes_a_line() {
    let source = "{\"resourceSpans\":[{\"resource\":{\"attributes\":[{\"key\":\"service.name\",\"value\":{\"stringValue\":\"shop\"}}]},\"scopeSpans\":[{\"scope\":{\"name\":\"lib\",\"version\":\"1.2\"},\"spans\":[{\"traceId\":\"t\",\"spanId\":\"s\",\"parentSpanId\":\"p\",\"traceState\":\"st\",\"name\":\"GET \\\"/\\\"\",\"kind\":2,\"startTimeUnixNano\":\"1709210096000000789\",\"endTimeUnixNano\":\"1709210096000000800\",\"attributes\":[{\"key\":\"n\",\"value\":{\"intValue\":7}}],\"status\":{\"code\":1,\"message\":\"m\"},\"events\":[{\"timeUnixNano\":\"1\",\"name\":\"e\",\"attributes\":[{\"key\":\"k\",\"value\":{\"stringValue\":\"v\"}}]}],\"links\":[{\"traceId\":\"lt\",\"spanId\":\"ls\",\"traceState\":\"lst\",\"attributes\":[]}]}]}]}]}";
    let expected = "{\"Timestamp\":\"2024-02-29 12:34:56.000000789\",\"TraceId\":\"t\",\"SpanId\":\"s\",\"ParentSpanId\":\"p\",\"TraceState\":\"st\",\"SpanName\":\"GET \\\"/\\\"\",\"SpanKind\":\"Server\",\"ServiceName\":\"shop\",\"ResourceAttributes\":{\"service.name\":\"shop\"},\"ScopeName\":\"lib\",\"ScopeVersion\":\"1.2\",\"SpanAttributes\":{\"n\":\"7\"},\"Duration\":11,\"StatusCode\":\"Ok\",\"StatusMessage\":\"m\",\"Events.Timestamp\":[\"1970-01-01 00:00:00.000000001\"],\"Events.Name\":[\"e\"],\"Events.Attributes\":[{\"k\":\"v\"}],\"Links.TraceId\":[\"lt\"],\"Links.SpanId\":[\"ls\"],\"Links.TraceState\":[\"lst\"],\"Links.Attributes\":[{}]}";
    assert_eq!(transform_otlp_to_clickhouse(source).unwrap(), expected);
}

#[test]
fn an_empty_span_becomes_a_line() {
    let expected = "{\"Timestamp\":\"1970-01-01 00:00:00.000000000\",\"TraceId\":\"\",\"SpanId\":\"\",\"ParentSpanId\":\"\",\"TraceState\":\"\",\"SpanName\":\"\",\"SpanKind\":\"Unspecified\",\"ServiceName\":\"unknown_service\",\"ResourceAttributes\":{},\"ScopeName\":\"\",\"ScopeVersion\":\"\",\"SpanAttributes\":{},\"Duration\":0,\"StatusCode\":\"Unset\",\"StatusMessage\":\"\",\"Events.Timestamp\":[],\"Events.Name\":[],\"Events.Attributes\":[],\"Links.TraceId\":[],\"Links.SpanId\":[],\"Links.TraceState\":[],\"Links.Attributes\":[]}";
    assert_eq!(transform_otlp_to_clickhouse(&document("{}")).unwrap(), expected);
}

#[test]
fn a_document_without_spans_becomes_nothing() {
    assert_eq!(transform_otlp_to_clickhouse("{}").unwrap(), "");
    assert_eq!(transform_otlp_to_clickhouse("{\"resourceSpans\":[]}").unwrap(), "");
}

#[test]
fn what_is_no_json_is_an_error() {
    for bad in ["", "not json", "{\"resourceSpans\":["] {
        let expected = serde_json::from_str::<serde_json::Value>(bad).unwrap_err();
        let error: serde_json::Error = transform_otlp_to_clickhouse(bad).unwrap_err();
        assert_eq!(error.to_string(), expected.to_string());
        assert_eq!((error.line(), error.column()), (expected.line(), expected.column()));
    }
}

#[test]
fn each_span_has_a_line_of_its_own() {
    let text = transform_otlp_to_clickhouse(&document(
        "{\"name\":\"a\\nb\"},{\"name\":\"c\"},{\"name\":\"d\"}",
    ))
    .unwrap();
    assert!(!text.ends_with('\n'));
    let lines = split_lines(&text);
    assert_eq!(lines.len(), 3);
    let names: Vec<String> = lines
        .iter()
        .map(|line| parse_json(line).unwrap().text_at("SpanName").unwrap().to_string())
        .collect();
    assert_eq!(names, ["a\nb", "c", "d"]);
}

#[test]
fn lines_read_back_as_rows() {
    let text = transform_otlp_to_clickhouse(&document(
        "{\"traceId\":\"\\u0000\\\\\\u2028\",\"startTimeUnixNano\":1,\"endTimeUnixNano\":18446744073709551615}",
    ))
    .unwrap();
    let row = parse_json(&text).unwrap();
    assert_eq!(row.text_at("TraceId"), Some("\u{0}\\\u{2028}"));
    assert_eq!(row.get("Duration").unwrap().as_u64(), Some(18446744073709551614));
    assert_eq!(row.array_at("Events.Name").unwrap().len(), 0);
}

#[test]
fn a_line_reads_back_with_all_columns() {
    let text = transform_otlp_to_clickhouse(&document("{\"name\":\"a\"}")).unwrap();
    let row = parse_json(&text).unwrap();
    for name in [
        "Timestamp", "TraceId", "SpanId", "ParentSpanId", "TraceState", "SpanName", "SpanKind",
        "ServiceName", "ResourceAttributes", "ScopeName", "ScopeVersion", "SpanAttributes",
        "Duration", "StatusCode", "StatusMessage", "Events.Timestamp", "Events.Name",
        "Events.Attributes", "Links.TraceId", "Links.SpanId", "Links.TraceState",
        "Links.Attributes",
    ] {
        assert!(row.get(name).is_some());
    }
}

#[test]
fn written_rows_are_found_again() {
    let text = transform_otlp_to_clickhouse(&document(
        "{\"traceId\":\"t1\",\"spanId\":\"s1\"},{\"traceId\":\"t2\",\"spanId\":\"s2\"}",
    ))
    .unwrap();
    assert_eq!(select_spans(&text), split_lines(&text));
    let one = transform_otlp_to_clickhouse(&document("{}")).unwrap();
    assert_eq!(select_spans(&one), [one.clone()]);
}

#[test]
fn lines_end_at_line_breaks() {
    assert_eq!(split_lines(""), [""]);
    assert_eq!(split_lines("a"), ["a"]);
    assert_eq!(split_lines("a\n\nb\n"), ["a", "", "b", ""]);
    assert_eq!(split_lines("a\r\nb"), ["a\r", "b"]);
}
