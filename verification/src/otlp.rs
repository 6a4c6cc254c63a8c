//! Reading spans out of an OTLP trace document.
use crate::attributes::{
    attributes_of, attributes_view, convert_attributes, or_empty, text_or_empty, Attributes,
};
use crate::json::{lemma_models, models, Json, JsonView};
use crate::span::{
    attribute_maps, span_kind_name, span_kind_to_string, status_code_name, status_code_to_string,
    texts, ClickhouseEvents, ClickhouseLinks, ClickhouseSpan, EventsView, LinksView, SpanView,
};
use crate::text::{parse_u64, u64_of};
use crate::text_map::TextMap;
use crate::timestamp::{format_timestamp, timestamp_text};
use vstd::prelude::*;

verus! {

/// What `f` gives for the items for which it gives something, in order.
pub open spec fn kept<T>(items: Seq<JsonView>, f: spec_fn(JsonView) -> Option<T>) -> Seq<T>
    decreases items.len(),
{
    if items.len() == 0 {
        Seq::empty()
    } else {
        let before = kept(items.drop_last(), f);
        match f(items.last()) {
            Some(x) => before.push(x),
            None => before,
        }
    }
}

/// What `f` gives for the items, one after the other.
pub open spec fn in_turn<T>(items: Seq<JsonView>, f: spec_fn(JsonView) -> Seq<T>) -> Seq<T>
    decreases items.len(),
{
    if items.len() == 0 {
        Seq::empty()
    } else {
        in_turn(items.drop_last(), f) + f(items.last())
    }
}

/// A time in nanoseconds: an integer, or a text that writes one; zero where it
/// is neither.
pub open spec fn nanos_of(time: JsonView) -> u64 {
    match time.as_text() {
        Some(s) => match u64_of(s) {
            Some(n) => n,
            None => 0,
        },
        None => match time.as_u64() {
            Some(n) => n,
            None => 0,
        },
    }
}

/// The time under `key` in nanoseconds, zero where there is none.
pub open spec fn time_at(item: JsonView, key: Seq<char>) -> u64 {
    match item.get(key) {
        Some(time) => nanos_of(time),
        None => 0,
    }
}

/// The text under `key`, empty where what stands there is no text; nothing
/// where nothing stands there.
pub open spec fn member_text(item: JsonView, key: Seq<char>) -> Option<Seq<char>> {
    match item.get(key) {
        Some(value) => Some(or_empty(value.as_text())),
        None => None,
    }
}

/// The attributes under `attributes`, where there is a list of them.
pub open spec fn member_attributes(item: JsonView) -> Option<Map<Seq<char>, Seq<char>>> {
    match item.array_at("attributes"@) {
        Some(attributes) => Some(attributes_of(attributes)),
        None => None,
    }
}

/// The time of an event as a text, where the event has one.
pub open spec fn event_timestamp(event: JsonView) -> Option<Seq<char>> {
    if time_at(event, "timeUnixNano"@) > 0 {
        Some(timestamp_text(time_at(event, "timeUnixNano"@)))
    } else {
        None
    }
}

/// The columns of a list of OTLP events.
pub open spec fn events_of(events: Seq<JsonView>) -> EventsView {
    EventsView {
        timestamp: kept(events, |e: JsonView| event_timestamp(e)),
        name: kept(events, |e: JsonView| member_text(e, "name"@)),
        attributes: kept(events, |e: JsonView| member_attributes(e)),
    }
}

/// The columns of a list of OTLP links.
pub open spec fn links_of(links: Seq<JsonView>) -> LinksView {
    LinksView {
        trace_id: kept(links, |l: JsonView| member_text(l, "traceId"@)),
        span_id: kept(links, |l: JsonView| member_text(l, "spanId"@)),
        trace_state: kept(links, |l: JsonView| member_text(l, "traceState"@)),
        attributes: kept(links, |l: JsonView| member_attributes(l)),
    }
}

/// The attributes of an item, none where it has no list of them.
pub open spec fn attributes_in(item: JsonView) -> Map<Seq<char>, Seq<char>> {
    match member_attributes(item) {
        Some(attributes) => attributes,
        None => Map::empty(),
    }
}

/// The members of the array under `key`, none where there is no array.
pub open spec fn items_at(item: JsonView, key: Seq<char>) -> Seq<JsonView> {
    match item.array_at(key) {
        Some(items) => items,
        None => Seq::empty(),
    }
}

/// What the spans of one scope have in common.
pub struct ScopeView {
    pub service_name: Seq<char>,
    pub resource_attributes: Map<Seq<char>, Seq<char>>,
    pub scope_name: Seq<char>,
    pub scope_version: Seq<char>,
}

/// The attributes of the resource of a `resourceSpans` member.
pub open spec fn resource_attributes(resource_span: JsonView) -> Map<Seq<char>, Seq<char>> {
    match resource_span.get("resource"@) {
        Some(resource) => attributes_in(resource),
        None => Map::empty(),
    }
}

/// The name of the service that a resource stands for.
pub open spec fn service_name(attributes: Map<Seq<char>, Seq<char>>) -> Seq<char> {
    if attributes.dom().contains("service.name"@) {
        attributes["service.name"@]
    } else {
        "unknown_service"@
    }
}

/// A text of the scope of a `scopeSpans` member.
pub open spec fn scope_text(scope_span: JsonView, key: Seq<char>) -> Seq<char> {
    match scope_span.get("scope"@) {
        Some(scope) => or_empty(scope.text_at(key)),
        None => Seq::empty(),
    }
}

/// What the spans of a `scopeSpans` member have in common.
pub open spec fn scope_of(resource: Map<Seq<char>, Seq<char>>, scope_span: JsonView) -> ScopeView {
    ScopeView {
        service_name: service_name(resource),
        resource_attributes: resource,
        scope_name: scope_text(scope_span, "name"@),
        scope_version: scope_text(scope_span, "version"@),
    }
}

/// The name of the kind of a span.
pub open spec fn kind_of(span: JsonView) -> Seq<char> {
    match span.get("kind"@) {
        Some(kind) => match kind.as_i64() {
            Some(n) => span_kind_name(n as i32),
            None => "Unspecified"@,
        },
        None => "Unspecified"@,
    }
}

/// The time that a span took, zero where its beginning or its end is not known.
pub open spec fn duration_between(start: u64, end: u64) -> u64 {
    if start > 0 && end > start {
        (end - start) as u64
    } else {
        0
    }
}

/// The status code of a status, zero where it has none.
pub open spec fn code_of(status: JsonView) -> i64 {
    match status.get("code"@) {
        Some(code) => match code.as_i64() {
            Some(n) => n,
            None => 0,
        },
        None => 0,
    }
}

/// The name of the status of a span.
pub open spec fn status_of(span: JsonView) -> Seq<char> {
    match span.get("status"@) {
        Some(status) => status_code_name(code_of(status) as i32),
        None => "Unset"@,
    }
}

/// The message that goes with the status of a span.
pub open spec fn status_message_of(span: JsonView) -> Seq<char> {
    match span.get("status"@) {
        Some(status) => or_empty(status.text_at("message"@)),
        None => Seq::empty(),
    }
}

/// The row of an OTLP span.
pub open spec fn span_of(span: JsonView, scope: ScopeView) -> SpanView {
    let start = time_at(span, "startTimeUnixNano"@);
    let end = time_at(span, "endTimeUnixNano"@);
    SpanView {
        timestamp: timestamp_text(start),
        trace_id: or_empty(span.text_at("traceId"@)),
        span_id: or_empty(span.text_at("spanId"@)),
        parent_span_id: or_empty(span.text_at("parentSpanId"@)),
        trace_state: or_empty(span.text_at("traceState"@)),
        span_name: or_empty(span.text_at("name"@)),
        span_kind: kind_of(span),
        service_name: scope.service_name,
        resource_attributes: scope.resource_attributes,
        scope_name: scope.scope_name,
        scope_version: scope.scope_version,
        span_attributes: attributes_in(span),
        duration: duration_between(start, end),
        status_code: status_of(span),
        status_message: status_message_of(span),
        events: events_of(items_at(span, "events"@)),
        links: links_of(items_at(span, "links"@)),
    }
}

/// The rows of a `scopeSpans` member.
pub open spec fn scope_rows(resource: Map<Seq<char>, Seq<char>>, scope_span: JsonView) -> Seq<
    SpanView,
> {
    items_at(scope_span, "spans"@).map_values(
        |span: JsonView| span_of(span, scope_of(resource, scope_span)),
    )
}

/// The rows of a `resourceSpans` member.
pub open spec fn resource_rows(resource_span: JsonView) -> Seq<SpanView> {
    let resource = resource_attributes(resource_span);
    in_turn(
        items_at(resource_span, "scopeSpans"@),
        |scope_span: JsonView| scope_rows(resource, scope_span),
    )
}

/// The rows of an OTLP document, in the order of its spans.
pub open spec fn rows_of(otlp: JsonView) -> Seq<SpanView> {
    in_turn(
        items_at(otlp, "resourceSpans"@),
        |resource_span: JsonView| resource_rows(resource_span),
    )
}

/// The rows that a list of spans holds.
pub open spec fn span_views(spans: Seq<ClickhouseSpan>) -> Seq<SpanView> {
    Seq::new(spans.len(), |i: int| spans[i]@)
}

/// A time in nanoseconds; zero where there is none.
fn time_or_zero(item: &Json, key: &str) -> (r: u64)
    ensures
        r == time_at(item@, key@),
{
    match item.get(key) {
        Some(time) => match time.as_str() {
            Some(s) => match parse_u64(s) {
                Some(n) => n,
                None => 0,
            },
            None => match time.as_u64() {
                Some(n) => n,
                None => 0,
            },
        },
        None => 0,
    }
}

/// The text under `key`, empty where there is none.
fn text_at_or_empty(item: &Json, key: &str) -> (r: String)
    ensures
        r@ == or_empty(item@.text_at(key@)),
{
    match item.text_at(key) {
        Some(s) => s.to_owned(),
        None => String::new(),
    }
}

/// The attributes of an item, none where it has no list of them.
fn attributes_or_none(item: &Json) -> (r: Attributes)
    ensures
        attributes_view(r) == attributes_in(item@),
{
    match item.array_at("attributes") {
        Some(attributes) => convert_attributes(attributes.as_slice()),
        None => {
            let none: Attributes = TextMap::new();
            assert(attributes_view(none) =~= Map::empty());
            none
        },
    }
}

/// Converts OTLP events to the columns of the table.
pub fn convert_events(events: &[Json]) -> (r: ClickhouseEvents)
    ensures
        r@ == events_of(models(events@)),
{
    let ghost all = models(events@);
    let mut timestamps: Vec<String> = Vec::new();
    let mut names: Vec<String> = Vec::new();
    let mut attributes_list: Vec<Attributes> = Vec::new();
    proof {
        lemma_models(events@);
    }
    for i in 0..events.len()
        invariant
            all.len() == events@.len(),
            forall|j: int| 0 <= j < all.len() ==> #[trigger] all[j] == events@[j]@,
            texts(timestamps@) == events_of(all.take(i as int)).timestamp,
            texts(names@) == events_of(all.take(i as int)).name,
            attribute_maps(attributes_list@) == events_of(all.take(i as int)).attributes,
    {
        let event = &events[i];
        let ghost done = events_of(all.take(i as int));
        proof {
            assert(all.take(i + 1).drop_last() == all.take(i as int));
            assert(all.take(i + 1).last() == event@);
        }
        let timestamp_nanos: u64 = time_or_zero(event, "timeUnixNano");
        if timestamp_nanos > 0 {
            timestamps.push(format_timestamp(timestamp_nanos));
            assert(texts(timestamps@) =~= done.timestamp.push(timestamp_text(timestamp_nanos)));
        }
        if let Some(name) = event.get("name") {
            names.push(text_or_empty(name));
            assert(texts(names@) =~= done.name.push(or_empty(name@.as_text())));
        }
        if let Some(attributes) = event.array_at("attributes") {
            let converted = convert_attributes(attributes.as_slice());
            let ghost held = attributes_view(converted);
            attributes_list.push(converted);
            assert(attribute_maps(attributes_list@) =~= done.attributes.push(held));
        }
    }
    assert(all.take(all.len() as int) == all);
    ClickhouseEvents { Timestamp: timestamps, Name: names, Attributes: attributes_list }
}

/// Converts OTLP links to the columns of the table.
pub fn convert_links(links: &[Json]) -> (r: ClickhouseLinks)
    ensures
        r@ == links_of(models(links@)),
{
    let ghost all = models(links@);
    let mut trace_ids: Vec<String> = Vec::new();
    let mut span_ids: Vec<String> = Vec::new();
    let mut trace_states: Vec<String> = Vec::new();
    let mut attributes_list: Vec<Attributes> = Vec::new();
    proof {
        lemma_models(links@);
    }
    for i in 0..links.len()
        invariant
            all.len() == links@.len(),
            forall|j: int| 0 <= j < all.len() ==> #[trigger] all[j] == links@[j]@,
            texts(trace_ids@) == links_of(all.take(i as int)).trace_id,
            texts(span_ids@) == links_of(all.take(i as int)).span_id,
            texts(trace_states@) == links_of(all.take(i as int)).trace_state,
            attribute_maps(attributes_list@) == links_of(all.take(i as int)).attributes,
    {
        let link = &links[i];
        let ghost done = links_of(all.take(i as int));
        proof {
            assert(all.take(i + 1).drop_last() == all.take(i as int));
            assert(all.take(i + 1).last() == link@);
        }
        if let Some(trace_id) = link.get("traceId") {
            trace_ids.push(text_or_empty(trace_id));
            assert(texts(trace_ids@) =~= done.trace_id.push(or_empty(trace_id@.as_text())));
        }
        if let Some(span_id) = link.get("spanId") {
            span_ids.push(text_or_empty(span_id));
            assert(texts(span_ids@) =~= done.span_id.push(or_empty(span_id@.as_text())));
        }
        if let Some(trace_state) = link.get("traceState") {
            trace_states.push(text_or_empty(trace_state));
            assert(texts(trace_states@) =~= done.trace_state.push(
                or_empty(trace_state@.as_text()),
            ));
        }
        if let Some(attributes) = link.array_at("attributes") {
            let converted = convert_attributes(attributes.as_slice());
            let ghost held = attributes_view(converted);
            attributes_list.push(converted);
            assert(attribute_maps(attributes_list@) =~= done.attributes.push(held));
        }
    }
    assert(all.take(all.len() as int) == all);
    ClickhouseLinks {
        TraceId: trace_ids,
        SpanId: span_ids,
        TraceState: trace_states,
        Attributes: attributes_list,
    }
}

/// What the spans of one scope have in common.
pub struct Scope {
    pub service_name: String,
    pub resource_attributes: Attributes,
    pub scope_name: String,
    pub scope_version: String,
}

impl View for Scope {
    type V = ScopeView;

    open spec fn view(&self) -> ScopeView {
        ScopeView {
            service_name: self.service_name@,
            resource_attributes: attributes_view(self.resource_attributes),
            scope_name: self.scope_name@,
            scope_version: self.scope_version@,
        }
    }
}

/// The attributes of the resource of a `resourceSpans` member.
fn convert_resource(resource_span: &Json) -> (r: Attributes)
    ensures
        attributes_view(r) == resource_attributes(resource_span@),
{
    match resource_span.get("resource") {
        Some(resource) => attributes_or_none(resource),
        None => {
            let none: Attributes = TextMap::new();
            assert(attributes_view(none) =~= Map::empty());
            none
        },
    }
}

/// What the spans of a `scopeSpans` member have in common.
fn convert_scope(resource: &Attributes, scope_span: &Json) -> (r: Scope)
    ensures
        r@ == scope_of(attributes_view(*resource), scope_span@),
{
    let service_name: String = match resource.get("service.name") {
        Some(name) => name.clone(),
        None => "unknown_service".to_owned(),
    };
    let (scope_name, scope_version) = match scope_span.get("scope") {
        Some(scope) => (text_at_or_empty(scope, "name"), text_at_or_empty(scope, "version")),
        None => (String::new(), String::new()),
    };
    Scope { service_name, resource_attributes: resource.clone(), scope_name, scope_version }
}

/// Converts an OTLP span to a row of the table.
pub fn convert_span(span: &Json, scope: &Scope) -> (r: ClickhouseSpan)
    ensures
        r@ == span_of(span@, scope@),
{
    let span_kind: String = match span.get("kind") {
        Some(kind) => match kind.as_i64() {
            Some(n) => span_kind_to_string(#[verifier::truncate] (n as i32)),
            None => "Unspecified".to_owned(),
        },
        None => "Unspecified".to_owned(),
    };
    let start_time_nanos: u64 = time_or_zero(span, "startTimeUnixNano");
    let end_time_nanos: u64 = time_or_zero(span, "endTimeUnixNano");
    let duration: u64 = if start_time_nanos > 0 && end_time_nanos > 0 {
        end_time_nanos.saturating_sub(start_time_nanos)
    } else {
        0
    };
    let (status_code, status_message) = match span.get("status") {
        Some(status) => {
            let code: i64 = match status.get("code") {
                Some(code) => match code.as_i64() {
                    Some(n) => n,
                    None => 0,
                },
                None => 0,
            };
            (
                status_code_to_string(#[verifier::truncate] (code as i32)),
                text_at_or_empty(status, "message"),
            )
        },
        None => ("Unset".to_owned(), String::new()),
    };
    let no_items: Vec<Json> = Vec::new();
    let events = match span.array_at("events") {
        Some(events) => convert_events(events.as_slice()),
        None => convert_events(no_items.as_slice()),
    };
    let links = match span.array_at("links") {
        Some(links) => convert_links(links.as_slice()),
        None => convert_links(no_items.as_slice()),
    };
    ClickhouseSpan {
        Timestamp: format_timestamp(start_time_nanos),
        TraceId: text_at_or_empty(span, "traceId"),
        SpanId: text_at_or_empty(span, "spanId"),
        ParentSpanId: text_at_or_empty(span, "parentSpanId"),
        TraceState: text_at_or_empty(span, "traceState"),
        SpanName: text_at_or_empty(span, "name"),
        SpanKind: span_kind,
        ServiceName: scope.service_name.clone(),
        ResourceAttributes: scope.resource_attributes.clone(),
        ScopeName: scope.scope_name.clone(),
        ScopeVersion: scope.scope_version.clone(),
        SpanAttributes: attributes_or_none(span),
        Duration: duration,
        StatusCode: status_code,
        StatusMessage: status_message,
        events_timestamp: events.Timestamp,
        events_name: events.Name,
        events_attributes: events.Attributes,
        links_trace_id: links.TraceId,
        links_span_id: links.SpanId,
        links_trace_state: links.TraceState,
        links_attributes: links.Attributes,
    }
}

/// Adds the rows of a `scopeSpans` member to `rows`.
fn convert_scope_spans(
    resource: &Attributes,
    scope_span: &Json,
    rows: &mut Vec<ClickhouseSpan>,
)
    ensures
        span_views(final(rows)@) == span_views(old(rows)@) + scope_rows(
            attributes_view(*resource),
            scope_span@,
        ),
{
    let ghost before = span_views(rows@);
    let ghost added = scope_rows(attributes_view(*resource), scope_span@);
    let scope = convert_scope(resource, scope_span);
    if let Some(spans) = scope_span.array_at("spans") {
        proof {
            lemma_models(spans@);
            assert(added.take(0) =~= Seq::empty());
            assert(before + added.take(0) =~= before);
        }
        for i in 0..spans.len()
            invariant
                scope@ == scope_of(attributes_view(*resource), scope_span@),
                items_at(scope_span@, "spans"@) == models(spans@),
                models(spans@).len() == spans@.len(),
                forall|j: int|
                    0 <= j < spans@.len() ==> #[trigger] models(spans@)[j] == spans@[j]@,
                added == scope_rows(attributes_view(*resource), scope_span@),
                span_views(rows@) == before + added.take(i as int),
        {
            let row = convert_span(&spans[i], &scope);
            let ghost held = row@;
            let ghost so_far = rows@;
            rows.push(row);
            assert(span_views(rows@) =~= span_views(so_far).push(held));
            assert(added[i as int] == held);
            assert(added.take(i + 1) =~= added.take(i as int).push(held));
            assert(span_views(rows@) =~= before + added.take(i + 1));
        }
        assert(added.take(added.len() as int) =~= added);
    } else {
        assert(added =~= Seq::empty());
        assert(before + added =~= before);
    }
}

/// Adds the rows of a `resourceSpans` member to `rows`.
fn convert_resource_spans(resource_span: &Json, rows: &mut Vec<ClickhouseSpan>)
    ensures
        span_views(final(rows)@) == span_views(old(rows)@) + resource_rows(resource_span@),
{
    let ghost before = span_views(rows@);
    let resource = convert_resource(resource_span);
    let ghost f = |scope_span: JsonView| scope_rows(resource_attributes(resource_span@), scope_span);
    if let Some(scope_spans) = resource_span.array_at("scopeSpans") {
        let ghost all = models(scope_spans@);
        proof {
            lemma_models(scope_spans@);
            assert(before + in_turn(all.take(0), f) =~= before);
        }
        for i in 0..scope_spans.len()
            invariant
                attributes_view(resource) == resource_attributes(resource_span@),
                f == (|scope_span: JsonView|
                    scope_rows(resource_attributes(resource_span@), scope_span)),
                all.len() == scope_spans@.len(),
                forall|j: int| 0 <= j < all.len() ==> #[trigger] all[j] == scope_spans@[j]@,
                span_views(rows@) == before + in_turn(all.take(i as int), f),
        {
            convert_scope_spans(&resource, &scope_spans[i], rows);
            assert(all.take(i + 1).drop_last() == all.take(i as int));
            assert(all.take(i + 1).last() == scope_spans@[i as int]@);
            assert(span_views(rows@) =~= before + in_turn(all.take(i + 1), f));
        }
        assert(all.take(all.len() as int) =~= all);
    } else {
        assert(before + in_turn(Seq::empty(), f) =~= before);
    }
}

/// The rows of an OTLP document, in the order of its spans.
pub fn convert_document(otlp: &Json) -> (r: Vec<ClickhouseSpan>)
    ensures
        span_views(r@) == rows_of(otlp@),
{
    let mut rows: Vec<ClickhouseSpan> = Vec::new();
    let ghost f = |resource_span: JsonView| resource_rows(resource_span);
    if let Some(resource_spans) = otlp.array_at("resourceSpans") {
        let ghost all = models(resource_spans@);
        proof {
            lemma_models(resource_spans@);
            assert(span_views(rows@) =~= in_turn(all.take(0), f));
        }
        for i in 0..resource_spans.len()
            invariant
                f == (|resource_span: JsonView| resource_rows(resource_span)),
                all.len() == resource_spans@.len(),
                forall|j: int| 0 <= j < all.len() ==> #[trigger] all[j] == resource_spans@[j]@,
                span_views(rows@) == in_turn(all.take(i as int), f),
        {
            convert_resource_spans(&resource_spans[i], &mut rows);
            assert(all.take(i + 1).drop_last() == all.take(i as int));
            assert(all.take(i + 1).last() == resource_spans@[i as int]@);
        }
        assert(all.take(all.len() as int) =~= all);
    } else {
        assert(span_views(rows@) =~= in_turn(Seq::empty(), f));
    }
    rows
}

/// What is given for two lists, one after the other, is what is given for the
/// one and then what is given for the other.
pub proof fn lemma_in_turn_both<T>(
    first: Seq<JsonView>,
    second: Seq<JsonView>,
    f: spec_fn(JsonView) -> Seq<T>,
)
    ensures
        in_turn(first + second, f) == in_turn(first, f) + in_turn(second, f),
    decreases second.len(),
{
    if second.len() == 0 {
        assert(first + second =~= first);
        assert(in_turn(first, f) + in_turn(second, f) =~= in_turn(first, f));
    } else {
        assert((first + second).drop_last() =~= first + second.drop_last());
        lemma_in_turn_both(first, second.drop_last(), f);
        assert(in_turn(first, f) + (in_turn(second.drop_last(), f) + f(second.last()))
            =~= in_turn(first, f) + in_turn(second.drop_last(), f) + f(second.last()));
    }
}

/// A document whose `resourceSpans` are those of two documents, one after the
/// other, has the rows of the first and then the rows of the second.
pub proof fn rows_of_both(first: JsonView, second: JsonView, both: JsonView)
    requires
        items_at(both, "resourceSpans"@) == items_at(first, "resourceSpans"@) + items_at(
            second,
            "resourceSpans"@,
        ),
    ensures
        rows_of(both) == rows_of(first) + rows_of(second),
{
    lemma_in_turn_both(
        items_at(first, "resourceSpans"@),
        items_at(second, "resourceSpans"@),
        |resource_span: JsonView| resource_rows(resource_span),
    );
}

/// The sum of what `f` gives for the items.
pub open spec fn total(items: Seq<JsonView>, f: spec_fn(JsonView) -> nat) -> nat
    decreases items.len(),
{
    if items.len() == 0 {
        0
    } else {
        total(items.drop_last(), f) + f(items.last())
    }
}

/// The number of spans in a `resourceSpans` member.
pub open spec fn resource_span_count(resource_span: JsonView) -> nat {
    total(
        items_at(resource_span, "scopeSpans"@),
        |scope_span: JsonView| items_at(scope_span, "spans"@).len(),
    )
}

/// The number of spans in an OTLP document.
pub open spec fn span_count(otlp: JsonView) -> nat {
    total(
        items_at(otlp, "resourceSpans"@),
        |resource_span: JsonView| resource_span_count(resource_span),
    )
}

/// Where `f` gives as many things as `g` says, all of it together is as much as
/// the sum.
proof fn lemma_in_turn_len<T>(
    items: Seq<JsonView>,
    f: spec_fn(JsonView) -> Seq<T>,
    g: spec_fn(JsonView) -> nat,
)
    requires
        forall|item: JsonView| (#[trigger] f(item)).len() == g(item),
    ensures
        in_turn(items, f).len() == total(items, g),
    decreases items.len(),
{
    if items.len() > 0 {
        lemma_in_turn_len(items.drop_last(), f, g);
        assert(f(items.last()).len() == g(items.last()));
    }
}

/// A document has one row for each of its spans.
pub proof fn one_row_for_each_span(otlp: JsonView)
    ensures
        rows_of(otlp).len() == span_count(otlp),
{
    let f = |resource_span: JsonView| resource_rows(resource_span);
    let g = |resource_span: JsonView| resource_span_count(resource_span);
    assert forall|resource_span: JsonView| (#[trigger] f(resource_span)).len() == g(
        resource_span,
    ) by {
        let resource = resource_attributes(resource_span);
        lemma_in_turn_len(
            items_at(resource_span, "scopeSpans"@),
            |scope_span: JsonView| scope_rows(resource, scope_span),
            |scope_span: JsonView| items_at(scope_span, "spans"@).len(),
        );
    }
    lemma_in_turn_len(items_at(otlp, "resourceSpans"@), f, g);
}

/// Where `p` holds of all that `f` gives for an item, it holds of all that is
/// given.
proof fn lemma_in_turn_all<T>(
    items: Seq<JsonView>,
    f: spec_fn(JsonView) -> Seq<T>,
    p: spec_fn(T) -> bool,
)
    requires
        forall|item: JsonView, i: int| 0 <= i < f(item).len() ==> p(#[trigger] f(item)[i]),
    ensures
        forall|i: int| 0 <= i < in_turn(items, f).len() ==> p(#[trigger] in_turn(items, f)[i]),
    decreases items.len(),
{
    if items.len() > 0 {
        let before = in_turn(items.drop_last(), f);
        lemma_in_turn_all(items.drop_last(), f, p);
        assert forall|i: int| 0 <= i < in_turn(items, f).len() implies p(
            #[trigger] in_turn(items, f)[i],
        ) by {
            if i < before.len() {
                assert(in_turn(items, f)[i] == before[i]);
            } else {
                assert(in_turn(items, f)[i] == f(items.last())[i - before.len()]);
            }
        }
    }
}

/// Every row of a resource carries the attributes of that resource, and the
/// service name that they give.
pub proof fn rows_carry_their_resource(resource_span: JsonView)
    ensures
        forall|i: int|
            0 <= i < resource_rows(resource_span).len() ==> (#[trigger] resource_rows(
                resource_span,
            )[i]).resource_attributes == resource_attributes(resource_span) && resource_rows(
                resource_span,
            )[i].service_name == service_name(resource_attributes(resource_span)),
{
    let resource = resource_attributes(resource_span);
    let f = |scope_span: JsonView| scope_rows(resource, scope_span);
    let p = |row: SpanView|
        row.resource_attributes == resource && row.service_name == service_name(resource);
    lemma_in_turn_all(items_at(resource_span, "scopeSpans"@), f, p);
    assert forall|i: int| 0 <= i < resource_rows(resource_span).len() implies (
    #[trigger] resource_rows(resource_span)[i]).resource_attributes == resource && resource_rows(
        resource_span,
    )[i].service_name == service_name(resource) by {
        assert(p(in_turn(items_at(resource_span, "scopeSpans"@), f)[i]));
    }
}

/// Where `f` gives something for every item, it gives as many things as there
/// are items.
pub proof fn lemma_kept_all<T>(items: Seq<JsonView>, f: spec_fn(JsonView) -> Option<T>)
    requires
        forall|i: int| 0 <= i < items.len() ==> (#[trigger] f(items[i])) is Some,
    ensures
        kept(items, f).len() == items.len(),
        forall|i: int| 0 <= i < items.len() ==> f(items[i]) == Some(#[trigger] kept(items, f)[i]),
    decreases items.len(),
{
    if items.len() > 0 {
        let before = items.drop_last();
        assert forall|i: int| 0 <= i < before.len() implies (#[trigger] f(before[i])) is Some by {
            assert(f(items[i]) is Some);
        }
        lemma_kept_all(before, f);
        assert(f(items[items.len() - 1]) is Some);
        assert forall|i: int| 0 <= i < items.len() implies f(items[i]) == Some(
            #[trigger] kept(items, f)[i],
        ) by {
            if i < before.len() {
                assert(kept(items, f)[i] == kept(before, f)[i]);
                assert(before[i] == items[i]);
            }
        }
    }
}

/// What `f` gives for two lists, one after the other, is what it gives for the
/// one and then what it gives for the other.
proof fn lemma_kept_both<T>(
    first: Seq<JsonView>,
    second: Seq<JsonView>,
    f: spec_fn(JsonView) -> Option<T>,
)
    ensures
        kept(first + second, f) == kept(first, f) + kept(second, f),
    decreases second.len(),
{
    if second.len() == 0 {
        assert(first + second =~= first);
    } else {
        assert((first + second).drop_last() =~= first + second.drop_last());
        lemma_kept_both(first, second.drop_last(), f);
    }
    assert(kept(first + second, f) =~= kept(first, f) + kept(second, f));
}

/// The columns of two lists of events, one after the other, are the columns of
/// the first followed by those of the second.
pub proof fn events_of_both(first: Seq<JsonView>, second: Seq<JsonView>)
    ensures
        events_of(first + second) == (EventsView {
            timestamp: events_of(first).timestamp + events_of(second).timestamp,
            name: events_of(first).name + events_of(second).name,
            attributes: events_of(first).attributes + events_of(second).attributes,
        }),
{
    lemma_kept_both(first, second, |e: JsonView| event_timestamp(e));
    lemma_kept_both(first, second, |e: JsonView| member_text(e, "name"@));
    lemma_kept_both(first, second, |e: JsonView| member_attributes(e));
}

/// The columns of two lists of links, one after the other, are the columns of
/// the first followed by those of the second.
pub proof fn links_of_both(first: Seq<JsonView>, second: Seq<JsonView>)
    ensures
        links_of(first + second) == (LinksView {
            trace_id: links_of(first).trace_id + links_of(second).trace_id,
            span_id: links_of(first).span_id + links_of(second).span_id,
            trace_state: links_of(first).trace_state + links_of(second).trace_state,
            attributes: links_of(first).attributes + links_of(second).attributes,
        }),
{
    lemma_kept_both(first, second, |l: JsonView| member_text(l, "traceId"@));
    lemma_kept_both(first, second, |l: JsonView| member_text(l, "spanId"@));
    lemma_kept_both(first, second, |l: JsonView| member_text(l, "traceState"@));
    lemma_kept_both(first, second, |l: JsonView| member_attributes(l));
}

/// An event has a time, a name and a list of attributes.
pub open spec fn is_full_event(event: JsonView) -> bool {
    time_at(event, "timeUnixNano"@) > 0 && event.get("name"@) is Some && event.array_at(
        "attributes"@,
    ) is Some
}

/// A link has a trace identifier, a span identifier, a trace state and a list of
/// attributes.
pub open spec fn is_full_link(link: JsonView) -> bool {
    link.get("traceId"@) is Some && link.get("spanId"@) is Some && link.get("traceState"@) is Some
        && link.array_at("attributes"@) is Some
}

/// Where every event is full, the columns of the events line up: each has one
/// member for each event, at the place of the event.
pub proof fn event_columns_line_up(events: Seq<JsonView>)
    requires
        forall|i: int| 0 <= i < events.len() ==> is_full_event(#[trigger] events[i]),
    ensures
        events_of(events).timestamp.len() == events.len(),
        events_of(events).name.len() == events.len(),
        events_of(events).attributes.len() == events.len(),
        forall|i: int|
            #![trigger events[i]]
            0 <= i < events.len() ==> event_timestamp(events[i]) == Some(
                events_of(events).timestamp[i],
            ) && member_text(events[i], "name"@) == Some(events_of(events).name[i])
                && member_attributes(events[i]) == Some(events_of(events).attributes[i]),
{
    lemma_kept_all(events, |e: JsonView| event_timestamp(e));
    lemma_kept_all(events, |e: JsonView| member_text(e, "name"@));
    lemma_kept_all(events, |e: JsonView| member_attributes(e));
}

/// Where every link is full, the columns of the links line up: each has one
/// member for each link, at the place of the link.
pub proof fn link_columns_line_up(links: Seq<JsonView>)
    requires
        forall|i: int| 0 <= i < links.len() ==> is_full_link(#[trigger] links[i]),
    ensures
        links_of(links).trace_id.len() == links.len(),
        links_of(links).span_id.len() == links.len(),
        links_of(links).trace_state.len() == links.len(),
        links_of(links).attributes.len() == links.len(),
        forall|i: int|
            #![trigger links[i]]
            0 <= i < links.len() ==> member_text(links[i], "traceId"@) == Some(
                links_of(links).trace_id[i],
            ) && member_text(links[i], "spanId"@) == Some(links_of(links).span_id[i])
                && member_text(links[i], "traceState"@) == Some(links_of(links).trace_state[i])
                && member_attributes(links[i]) == Some(links_of(links).attributes[i]),
{
    lemma_kept_all(links, |l: JsonView| member_text(l, "traceId"@));
    lemma_kept_all(links, |l: JsonView| member_text(l, "spanId"@));
    lemma_kept_all(links, |l: JsonView| member_text(l, "traceState"@));
    lemma_kept_all(links, |l: JsonView| member_attributes(l));
}

} // verus!
