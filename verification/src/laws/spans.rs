//! Spans: what a row shows of the span that it is made of.
use crate::json::JsonView;
use crate::laws::attributes::{attributes_are_held_by_key, holds_attributes};
use crate::laws::{is_time_under, list_under, member, no_time_under, text_under};
use crate::otlp::{events_of, links_of, span_of, time_at, ScopeView};
use crate::span::{span_kind_name, status_code_name, SpanView};
use crate::timestamp::timestamp_text;
use vstd::prelude::*;

verus! {

/// `name` is the name of the span kind `kind`.
pub open spec fn is_kind_name(kind: i32, name: Seq<char>) -> bool {
    &&& kind == 1 ==> name == "Internal"@
    &&& kind == 2 ==> name == "Server"@
    &&& kind == 3 ==> name == "Client"@
    &&& kind == 4 ==> name == "Producer"@
    &&& kind == 5 ==> name == "Consumer"@
    &&& kind < 1 || kind > 5 ==> name == "Unspecified"@
}

/// `name` is the name of the status code `code`.
pub open spec fn is_status_name(code: i32, name: Seq<char>) -> bool {
    &&& code == 1 ==> name == "Ok"@
    &&& code == 2 ==> name == "Error"@
    &&& code < 1 || code > 2 ==> name == "Unset"@
}

/// `n` stands under `key`, as an integer that an `i64` can hold.
pub open spec fn is_number_under(value: JsonView, key: Seq<char>, n: i64) -> bool {
    member(value, key) == Some(JsonView::Int(n as int))
}

/// The time under `key` reads as `nanos`: it is that time, or there is no time
/// and `nanos` is zero.
pub open spec fn reads_time(value: JsonView, key: Seq<char>, nanos: u64) -> bool {
    is_time_under(value, key, nanos) || (no_time_under(value, key) && nanos == 0)
}

/// `row` shows the identifiers, the name and the trace state of `span`.
pub open spec fn shows_texts(span: JsonView, row: SpanView) -> bool {
    &&& row.trace_id == text_under(span, "traceId"@)
    &&& row.span_id == text_under(span, "spanId"@)
    &&& row.parent_span_id == text_under(span, "parentSpanId"@)
    &&& row.trace_state == text_under(span, "traceState"@)
    &&& row.span_name == text_under(span, "name"@)
}

/// `row` shows the kind of `span`: of a number the lower half counts, and what
/// is no number has no kind.
pub open spec fn shows_kind(span: JsonView, row: SpanView) -> bool {
    &&& forall|n: i64| #[trigger]
        is_number_under(span, "kind"@, n) ==> is_kind_name(n as i32, row.span_kind)
    &&& (forall|n: i64| !#[trigger] is_number_under(span, "kind"@, n)) ==> row.span_kind
        == "Unspecified"@
}

/// `row` shows when `span` began and how long it took: the difference of its
/// times, and nothing where a time is missing or the end comes first.
pub open spec fn shows_times(span: JsonView, row: SpanView) -> bool {
    &&& forall|start: u64| #[trigger]
        reads_time(span, "startTimeUnixNano"@, start) ==> row.timestamp == timestamp_text(start)
    &&& forall|start: u64, end: u64|
        #[trigger] reads_time(span, "startTimeUnixNano"@, start) && #[trigger] reads_time(
            span,
            "endTimeUnixNano"@,
            end,
        ) ==> row.duration == if 0 < start <= end {
            end - start
        } else {
            0
        }
}

/// `row` shows the status of `span`.
pub open spec fn shows_status(span: JsonView, row: SpanView) -> bool {
    match member(span, "status"@) {
        Some(status) => {
            &&& row.status_message == text_under(status, "message"@)
            &&& forall|n: i64| #[trigger]
                is_number_under(status, "code"@, n) ==> is_status_name(n as i32, row.status_code)
            &&& (forall|n: i64| !#[trigger] is_number_under(status, "code"@, n))
                ==> row.status_code == "Unset"@
        },
        None => row.status_code == "Unset"@ && row.status_message.len() == 0,
    }
}

/// `held` are the attributes that stand in the list under `attributes`.
pub open spec fn shows_attributes(item: JsonView, held: Map<Seq<char>, Seq<char>>) -> bool {
    match list_under(item, "attributes"@) {
        Some(items) => holds_attributes(items, held),
        None => held.dom() == Set::<Seq<char>>::empty(),
    }
}

/// `row` has the columns of the events and of the links of `span`.
pub open spec fn shows_columns(span: JsonView, row: SpanView) -> bool {
    &&& list_under(span, "events"@) matches Some(items) ==> row.events == events_of(items)
    &&& list_under(span, "events"@) is None ==> row.events.timestamp.len() == 0
        && row.events.name.len() == 0 && row.events.attributes.len() == 0
    &&& list_under(span, "links"@) matches Some(items) ==> row.links == links_of(items)
    &&& list_under(span, "links"@) is None ==> row.links.trace_id.len() == 0
        && row.links.span_id.len() == 0 && row.links.trace_state.len() == 0
        && row.links.attributes.len() == 0
}

/// `row` shows all of `span`.
pub open spec fn shows_span(span: JsonView, row: SpanView) -> bool {
    &&& shows_texts(span, row)
    &&& shows_kind(span, row)
    &&& shows_times(span, row)
    &&& shows_status(span, row)
    &&& shows_attributes(span, row.span_attributes)
    &&& shows_columns(span, row)
}

/// What a time reads as.
proof fn lemma_reads_time(item: JsonView, key: Seq<char>, nanos: u64)
    requires
        reads_time(item, key, nanos),
    ensures
        time_at(item, key) == nanos,
{
    if time_at(item, key) != 0 {
        assert(is_time_under(item, key, time_at(item, key)));
    }
}

/// Span kinds and status codes have the names of OpenTelemetry.
pub proof fn numbers_have_their_names(number: i32)
    ensures
        is_kind_name(number, span_kind_name(number)),
        is_status_name(number, status_code_name(number)),
{
}

/// A span whose beginning and end are known took the time between them, whatever
/// else it has.
pub proof fn durations_are_differences(span: JsonView, scope: ScopeView, start: u64, end: u64)
    requires
        is_time_under(span, "startTimeUnixNano"@, start),
        is_time_under(span, "endTimeUnixNano"@, end),
        0 < start <= end,
    ensures
        span_of(span, scope).duration == end - start,
        span_of(span, scope).timestamp == timestamp_text(start),
{
    lemma_reads_time(span, "startTimeUnixNano"@, start);
    lemma_reads_time(span, "endTimeUnixNano"@, end);
}

/// A row shows its span, each member where it belongs and none of them depending
/// on another, and the scope that it stands in.
pub proof fn a_row_shows_its_span(span: JsonView, scope: ScopeView)
    ensures
        shows_span(span, span_of(span, scope)),
        span_of(span, scope).service_name == scope.service_name,
        span_of(span, scope).resource_attributes == scope.resource_attributes,
        span_of(span, scope).scope_name == scope.scope_name,
        span_of(span, scope).scope_version == scope.scope_version,
{
    let row = span_of(span, scope);
    assert(shows_kind(span, row)) by {
        if let Some(JsonView::Int(n)) = member(span, "kind"@) {
            if i64::MIN <= n <= i64::MAX {
                assert(is_number_under(span, "kind"@, n as i64));
            }
        }
    }
    assert forall|start: u64| #[trigger]
        reads_time(span, "startTimeUnixNano"@, start) implies row.timestamp == timestamp_text(
        start,
    ) by {
        lemma_reads_time(span, "startTimeUnixNano"@, start);
    }
    assert forall|start: u64, end: u64|
        #[trigger] reads_time(span, "startTimeUnixNano"@, start) && #[trigger] reads_time(
            span,
            "endTimeUnixNano"@,
            end,
        ) implies row.duration == if 0 < start <= end {
        end - start
    } else {
        0
    } by {
        lemma_reads_time(span, "startTimeUnixNano"@, start);
        lemma_reads_time(span, "endTimeUnixNano"@, end);
    }
    assert(shows_status(span, row)) by {
        if let Some(status) = member(span, "status"@) {
            if let Some(JsonView::Int(n)) = member(status, "code"@) {
                if i64::MIN <= n <= i64::MAX {
                    assert(is_number_under(status, "code"@, n as i64));
                }
            }
        }
    }
    if let Some(items) = list_under(span, "attributes"@) {
        attributes_are_held_by_key(items);
    }
    assert(shows_attributes(span, row.span_attributes));
    assert(shows_columns(span, row));
}

} // verus!
