use clickhouse_spans::codec::parse_json;
use clickhouse_spans::json::Json;
use clickhouse_spans::span_filter::{
    choose_span, has_span_ids, looks_like_span, Choice, MAX_RECORD_SIZE_BYTES,
};
use clickhouse_spans::{select_spans, transform_otlp_to_clickhouse};

const SPAN: &str = "{\"TraceId\":\"t\",\"SpanId\":\"s\"}";
const OTHER: &str = "{\"TraceId\":\"u\",\"SpanId\":\"v\",\"x\":1}";

/// A structured log entry with `message` in it.
fn logged(message: &str) -> String {
    let message = Json::Text(message.to_string()).to_text();
    format!("{{\"level\":\"INFO\",\"fields\":{{\"message\":{}}}}}", message)
}

#[test]
fn a_span_is_taken_whole() {
    assert_eq!(select_spans(SPAN), [SPAN]);
}

#[test]
fn a_single_span_keeps_the_space_around_it() {
    let record = format!("  {} ", SPAN);
    assert_eq!(select_spans(&record), [record.clone()]);
}

#[test]
fn a_span_may_write_its_keys_with_space() {
    let record = "{\"TraceId\" : \"t\", \"SpanId\" : \"s\"}";
    assert_eq!(select_spans(record), [record]);
}

#[test]
fn the_lines_that_are_spans_are_taken() {
    let record = format!("START\n{}\n\n{{\"TraceId\":1,\"SpanId\":\"s\"}}\n  {}\nEND\n", SPAN, OTHER);
    assert_eq!(select_spans(&record), [SPAN.to_string(), format!("  {}", OTHER)]);
}

#[test]
fn white_space_around_a_record_is_dropped_from_its_lines() {
    let record = format!("\u{2003} {}\n{} \u{85}\n", SPAN, OTHER);
    assert_eq!(select_spans(&record), [SPAN, OTHER]);
}

#[test]
fn a_line_that_is_no_json_is_passed_over() {
    let record = format!("\"TraceId\": \"SpanId\":\n{}", SPAN);
    assert_eq!(select_spans(&record), [SPAN]);
}

#[test]
fn a_span_over_several_lines_is_taken_whole() {
    let record = "{\n\"TraceId\":\"t\",\n\"SpanId\":\"s\"\n}";
    assert_eq!(select_spans(record), [record]);
}

#[test]
fn the_message_of_a_log_entry_is_taken() {
    assert_eq!(select_spans(&logged(SPAN)), [SPAN]);
}

#[test]
fn a_row_that_was_logged_is_taken() {
    let document = "{\"resourceSpans\":[{\"scopeSpans\":[{\"spans\":[{\"name\":\"a\"}]}]}]}";
    let row = transform_otlp_to_clickhouse(document).unwrap();
    assert_eq!(select_spans(&logged(&row)), [row]);
}

#[test]
fn a_message_must_name_a_span() {
    assert!(select_spans(&logged("hello")).is_empty());
    assert!(select_spans(&logged("{\"TraceId\" : \"t\",\"SpanId\":\"s\"}")).is_empty());
    assert!(select_spans(&logged("\"TraceId\": \"SpanId\":")).is_empty());
    assert!(select_spans(&logged("{\"TraceId\":\"t\",\"SpanId\":2}")).is_empty());
    assert!(select_spans("{\"fields\":{\"message\":5}}").is_empty());
    assert!(select_spans("{\"fields\":5}").is_empty());
}

#[test]
fn what_is_no_span_gives_nothing() {
    for record in ["", "START RequestId: 1", "{}", "[]", "{\"TraceId\":\"t\"}", "\n\n", "{\"TraceId\":\"t\",\"SpanId\":null}"] {
        assert!(select_spans(record).is_empty());
    }
}

#[test]
fn only_spans_come_out() {
    let record = format!("{}\n{{}}\n{}", SPAN, OTHER);
    for span in select_spans(&record) {
        assert!(has_span_ids(&parse_json(&span).unwrap()));
    }
}

#[test]
fn spans_of_one_line_give_themselves() {
    let records = [format!("{}\n{{}}\n{}", SPAN, OTHER), logged(OTHER), SPAN.to_string()];
    for record in &records {
        for span in select_spans(record) {
            assert_eq!(select_spans(&span), [span.clone()]);
        }
    }
}

#[test]
fn no_span_is_larger_than_its_record() {
    let long = format!("{{\"TraceId\":\"{}\",\"SpanId\":\"s\"}}", "é\\n".repeat(1000));
    for record in [logged(&long), format!("{}\n{}", long, SPAN), long.clone()] {
        let spans = select_spans(&record);
        assert!(!spans.is_empty());
        for span in spans {
            assert!(span.len() <= record.len());
        }
    }
}

#[test]
fn the_largest_record_is_taken() {
    let padding = " ".repeat(MAX_RECORD_SIZE_BYTES - SPAN.len());
    let record = format!("{}{}", SPAN, padding);
    assert_eq!(record.len(), 1_048_576);
    assert_eq!(select_spans(&record), [record.clone()]);
}

#[test]
fn a_larger_record_is_not_taken() {
    let padding = " ".repeat(MAX_RECORD_SIZE_BYTES + 1 - SPAN.len());
    assert!(select_spans(&format!("{}{}", SPAN, padding)).is_empty());
    assert!(select_spans(&format!("{}\n{}", SPAN, padding)).is_empty());
}

#[test]
fn size_is_counted_in_bytes() {
    let half = "é".repeat(MAX_RECORD_SIZE_BYTES / 2);
    assert!(select_spans(&format!("{{\"TraceId\":\"{}\",\"SpanId\":\"s\"}}", half)).is_empty());
}

#[test]
fn a_value_tells_what_to_do() {
    let choice = |source: &str| match choose_span(&parse_json(source).unwrap()) {
        Choice::Record => "record".to_string(),
        Choice::Message(message) => message.to_string(),
        Choice::Nothing => "nothing".to_string(),
    };
    assert_eq!(choice(SPAN), "record");
    assert_eq!(choice(&logged(SPAN)), SPAN);
    assert_eq!(choice(&logged("\"TraceId\":\"SpanId\":")), "\"TraceId\":\"SpanId\":");
    assert_eq!(choice(&logged("hello")), "nothing");
    assert_eq!(choice("7"), "nothing");
}

#[test]
fn both_keys_must_stand_in_a_text() {
    assert!(looks_like_span("x\"SpanId\":y\"TraceId\":z"));
    assert!(!looks_like_span("\"TraceId\":"));
    assert!(!looks_like_span("\"SpanId\":"));
    assert!(!looks_like_span("\"TraceId\" : \"SpanId\" :"));
}
