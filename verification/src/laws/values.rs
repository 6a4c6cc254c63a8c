//! JSON values: reading members and writing values as text.
use crate::attributes::{attributes_view, or_empty, Attributes};
use crate::codec::{compact_text, decimal_text, is_verbatim, json_text};
use crate::json::{entry_models, lemma_entry_models, lemma_models, Json, JsonView};
use crate::laws::{list_under, member, text_under};
use crate::otlp::{span_views, Scope};
use crate::span::{attribute_maps, texts, ClickhouseEvents, ClickhouseLinks, ClickhouseSpan};
use crate::text_map::map_of;
use vstd::prelude::*;

verus! {

/// A key finds what the object holds under exactly that key, and nothing in what
/// is no object; a text, an array or an integer is taken for what it is and for
/// nothing else.
pub proof fn members_are_read_as_they_stand(value: JsonView, key: Seq<char>)
    ensures
        value.get(key) == member(value, key),
        value.as_text() is Some <==> value is Text,
        value matches JsonView::Text(s) ==> value.as_text() == Some(s),
        value.as_array() is Some <==> value is Array,
        value matches JsonView::Array(items) ==> value.as_array() == Some(items),
        value.as_i64() is Some <==> (value matches JsonView::Int(n) && i64::MIN <= n <= i64::MAX),
        value.as_i64() matches Some(n) ==> value == JsonView::Int(n as int),
        value.as_u64() is Some <==> (value matches JsonView::Int(n) && 0 <= n <= u64::MAX),
        value.as_u64() matches Some(n) ==> value == JsonView::Int(n as int),
        value matches JsonView::Text(s) ==> or_empty(value.as_text()) == s,
        !(value is Text) ==> or_empty(value.as_text()).len() == 0,
        or_empty(value.text_at(key)) == text_under(value, key),
        value.array_at(key) == list_under(value, key),
{
}

/// A JSON value stands for what it holds: texts and numbers for themselves,
/// arrays member by member, objects entry by entry.
pub proof fn values_stand_for_what_they_hold(json: Json)
    ensures
        json is Null ==> json@ is Null,
        json matches Json::Bool(b) ==> json@ == JsonView::Bool(b),
        json matches Json::Unsigned(n) ==> json@ == JsonView::Int(n as int),
        json matches Json::Signed(n) ==> json@ == JsonView::Int(n as int),
        json matches Json::Float(f) ==> json@ == JsonView::Float(f),
        json matches Json::Text(s) ==> json@ == JsonView::Text(s@),
        json matches Json::Array(items) ==> (json@ matches JsonView::Array(held) && held.len()
            == items@.len() && forall|i: int|
            0 <= i < items@.len() ==> #[trigger] held[i] == items@[i]@),
        json matches Json::Object(entries) ==> json@ == JsonView::Object(
            map_of(Seq::new(entries@.len(), |i: int| (entries@[i].0@, entries@[i].1@))),
        ),
{
    match json {
        Json::Array(items) => {
            lemma_models(items@);
        },
        Json::Object(entries) => {
            lemma_entry_models(entries@);
            assert(entry_models(entries@) =~= Seq::new(
                entries@.len(),
                |i: int| (entries@[i].0@, entries@[i].1@),
            ));
        },
        _ => {},
    }
}

/// Entries that are written one after the other make a map in which the later
/// entry under a key counts.
pub proof fn later_entries_count<V>(entries: Seq<(Seq<char>, V)>, key: Seq<char>, value: V)
    ensures
        map_of(Seq::<(Seq<char>, V)>::empty()) == Map::<Seq<char>, V>::empty(),
        map_of(entries.push((key, value))) == map_of(entries).insert(key, value),
{
    assert(entries.push((key, value)).drop_last() =~= entries);
}

/// The null value and booleans are written as words, a text that needs no escape
/// between quotes, and integers in decimal digits with a sign where they are
/// negative. Anything else is written as `serde_json` writes it.
pub proof fn values_are_written_as_json(value: JsonView)
    ensures
        value is Null ==> compact_text(value) == "null"@,
        value == JsonView::Bool(true) ==> compact_text(value) == "true"@,
        value == JsonView::Bool(false) ==> compact_text(value) == "false"@,
        value matches JsonView::Int(n) ==> compact_text(value) == if n < 0 {
            seq!['-'] + decimal_text((-n) as nat)
        } else {
            decimal_text(n as nat)
        },
        value matches JsonView::Text(s) ==> (is_verbatim(s) ==> compact_text(value) == seq!['"'] + s
            + seq!['"']),
        value matches JsonView::Text(s) ==> (!is_verbatim(s) ==> compact_text(value) == json_text(
            value,
        )),
        value is Float || value is Array || value is Object ==> compact_text(value) == json_text(
            value,
        ),
{
}

/// What a span holds is what its fields hold.
pub proof fn spans_hold_their_fields(span: ClickhouseSpan)
    ensures
        span@.timestamp == span.Timestamp@,
        span@.trace_id == span.TraceId@,
        span@.span_id == span.SpanId@,
        span@.parent_span_id == span.ParentSpanId@,
        span@.trace_state == span.TraceState@,
        span@.span_name == span.SpanName@,
        span@.span_kind == span.SpanKind@,
        span@.service_name == span.ServiceName@,
        span@.resource_attributes == attributes_view(span.ResourceAttributes),
        span@.scope_name == span.ScopeName@,
        span@.scope_version == span.ScopeVersion@,
        span@.span_attributes == attributes_view(span.SpanAttributes),
        span@.duration == span.Duration,
        span@.status_code == span.StatusCode@,
        span@.status_message == span.StatusMessage@,
        span@.events.timestamp == texts(span.events_timestamp@),
        span@.events.name == texts(span.events_name@),
        span@.events.attributes == attribute_maps(span.events_attributes@),
        span@.links.trace_id == texts(span.links_trace_id@),
        span@.links.span_id == texts(span.links_span_id@),
        span@.links.trace_state == texts(span.links_trace_state@),
        span@.links.attributes == attribute_maps(span.links_attributes@),
{
}

/// What events and links hold is what their fields hold.
pub proof fn columns_hold_their_fields(events: ClickhouseEvents, links: ClickhouseLinks)
    ensures
        events@.timestamp == texts(events.Timestamp@),
        events@.name == texts(events.Name@),
        events@.attributes == attribute_maps(events.Attributes@),
        links@.trace_id == texts(links.TraceId@),
        links@.span_id == texts(links.SpanId@),
        links@.trace_state == texts(links.TraceState@),
        links@.attributes == attribute_maps(links.Attributes@),
{
}

/// What a scope holds is what its fields hold.
pub proof fn scopes_hold_their_fields(scope: Scope)
    ensures
        scope@.service_name == scope.service_name@,
        scope@.resource_attributes == attributes_view(scope.resource_attributes),
        scope@.scope_name == scope.scope_name@,
        scope@.scope_version == scope.scope_version@,
{
}

/// What a list holds is what its members hold, place by place.
pub proof fn lists_hold_their_members(
    list: Seq<String>,
    maps: Seq<Attributes>,
    spans: Seq<ClickhouseSpan>,
)
    ensures
        texts(list).len() == list.len(),
        forall|i: int| 0 <= i < list.len() ==> #[trigger] texts(list)[i] == list[i]@,
        attribute_maps(maps).len() == maps.len(),
        forall|i: int|
            0 <= i < maps.len() ==> #[trigger] attribute_maps(maps)[i] == attributes_view(maps[i]),
        span_views(spans).len() == spans.len(),
        forall|i: int| 0 <= i < spans.len() ==> #[trigger] span_views(spans)[i] == spans[i]@,
{
}

/// What attributes hold under a key is the text that stands there.
pub proof fn attributes_hold_their_texts(attributes: Attributes)
    ensures
        attributes_view(attributes).dom() == attributes@.dom(),
        forall|key: Seq<char>|
            attributes@.dom().contains(key) ==> #[trigger] attributes_view(attributes)[key]
                == attributes@[key]@,
{
    assert(attributes_view(attributes).dom() =~= attributes@.dom());
}

} // verus!
