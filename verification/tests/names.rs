use clickhouse_spans::span::{span_kind_to_string, status_code_to_string};

#[test]
fn span_kinds_have_names() {
    assert_eq!(span_kind_to_string(1), "Internal");
    assert_eq!(span_kind_to_string(2), "Server");
    assert_eq!(span_kind_to_string(3), "Client");
    assert_eq!(span_kind_to_string(4), "Producer");
    assert_eq!(span_kind_to_string(5), "Consumer");
    assert_eq!(span_kind_to_string(0), "Unspecified");
    assert_eq!(span_kind_to_string(-1), "Unspecified");
}

#[test]
fn status_codes_have_names() {
    assert_eq!(status_code_to_string(1), "Ok");
    assert_eq!(status_code_to_string(2), "Error");
    assert_eq!(status_code_to_string(0), "Unset");
    assert_eq!(status_code_to_string(3), "Unset");
}
