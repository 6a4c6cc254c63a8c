//! Spans as rows of a ClickHouse table.
use crate::attributes::{attributes_view, Attributes};
use vstd::prelude::*;

verus! {

/// A span as a row of the table.
#[allow(non_snake_case)]
#[derive(Debug)]
pub struct ClickhouseSpan {
    pub Timestamp: String,
    pub TraceId: String,
    pub SpanId: String,
    pub ParentSpanId: String,
    pub TraceState: String,
    pub SpanName: String,
    pub SpanKind: String,
    pub ServiceName: String,
    pub ResourceAttributes: Attributes,
    pub ScopeName: String,
    pub ScopeVersion: String,
    pub SpanAttributes: Attributes,
    /// In nanoseconds.
    pub Duration: u64,
    pub StatusCode: String,
    pub StatusMessage: String,
    /// The column `Events.Timestamp`.
    pub events_timestamp: Vec<String>,
    /// The column `Events.Name`.
    pub events_name: Vec<String>,
    /// The column `Events.Attributes`.
    pub events_attributes: Vec<Attributes>,
    /// The column `Links.TraceId`.
    pub links_trace_id: Vec<String>,
    /// The column `Links.SpanId`.
    pub links_span_id: Vec<String>,
    /// The column `Links.TraceState`.
    pub links_trace_state: Vec<String>,
    /// The column `Links.Attributes`.
    pub links_attributes: Vec<Attributes>,
}

/// The events of a span, a list for each column. In the table:
///
/// ```text
/// Events Nested (
///   Timestamp DateTime64(9),
///   Name LowCardinality(String),
///   Attributes Map(LowCardinality(String), String)
/// )
/// ```
#[allow(non_snake_case)]
#[derive(Debug)]
pub struct ClickhouseEvents {
    pub Timestamp: Vec<String>,
    pub Name: Vec<String>,
    pub Attributes: Vec<Attributes>,
}

/// The links of a span, a list for each column. In the table:
///
/// ```text
/// Links Nested (
///   TraceId String,
///   SpanId String,
///   TraceState String,
///   Attributes Map(LowCardinality(String), String)
/// )
/// ```
#[allow(non_snake_case)]
#[derive(Debug)]
pub struct ClickhouseLinks {
    pub TraceId: Vec<String>,
    pub SpanId: Vec<String>,
    pub TraceState: Vec<String>,
    pub Attributes: Vec<Attributes>,
}

/// What a list of texts holds.
pub open spec fn texts(list: Seq<String>) -> Seq<Seq<char>> {
    Seq::new(list.len(), |i: int| list[i]@)
}

/// What a list of attributes holds.
pub open spec fn attribute_maps(list: Seq<Attributes>) -> Seq<Map<Seq<char>, Seq<char>>> {
    Seq::new(list.len(), |i: int| attributes_view(list[i]))
}

/// What `ClickhouseEvents` holds.
pub struct EventsView {
    pub timestamp: Seq<Seq<char>>,
    pub name: Seq<Seq<char>>,
    pub attributes: Seq<Map<Seq<char>, Seq<char>>>,
}

/// What `ClickhouseLinks` holds.
pub struct LinksView {
    pub trace_id: Seq<Seq<char>>,
    pub span_id: Seq<Seq<char>>,
    pub trace_state: Seq<Seq<char>>,
    pub attributes: Seq<Map<Seq<char>, Seq<char>>>,
}

/// What `ClickhouseSpan` holds.
pub struct SpanView {
    pub timestamp: Seq<char>,
    pub trace_id: Seq<char>,
    pub span_id: Seq<char>,
    pub parent_span_id: Seq<char>,
    pub trace_state: Seq<char>,
    pub span_name: Seq<char>,
    pub span_kind: Seq<char>,
    pub service_name: Seq<char>,
    pub resource_attributes: Map<Seq<char>, Seq<char>>,
    pub scope_name: Seq<char>,
    pub scope_version: Seq<char>,
    pub span_attributes: Map<Seq<char>, Seq<char>>,
    pub duration: u64,
    pub status_code: Seq<char>,
    pub status_message: Seq<char>,
    pub events: EventsView,
    pub links: LinksView,
}

impl View for ClickhouseEvents {
    type V = EventsView;

    open spec fn view(&self) -> EventsView {
        EventsView {
            timestamp: texts(self.Timestamp@),
            name: texts(self.Name@),
            attributes: attribute_maps(self.Attributes@),
        }
    }
}

impl View for ClickhouseLinks {
    type V = LinksView;

    open spec fn view(&self) -> LinksView {
        LinksView {
            trace_id: texts(self.TraceId@),
            span_id: texts(self.SpanId@),
            trace_state: texts(self.TraceState@),
            attributes: attribute_maps(self.Attributes@),
        }
    }
}

impl View for ClickhouseSpan {
    type V = SpanView;

    open spec fn view(&self) -> SpanView {
        SpanView {
            timestamp: self.Timestamp@,
            trace_id: self.TraceId@,
            span_id: self.SpanId@,
            parent_span_id: self.ParentSpanId@,
            trace_state: self.TraceState@,
            span_name: self.SpanName@,
            span_kind: self.SpanKind@,
            service_name: self.ServiceName@,
            resource_attributes: attributes_view(self.ResourceAttributes),
            scope_name: self.ScopeName@,
            scope_version: self.ScopeVersion@,
            span_attributes: attributes_view(self.SpanAttributes),
            duration: self.Duration,
            status_code: self.StatusCode@,
            status_message: self.StatusMessage@,
            events: EventsView {
                timestamp: texts(self.events_timestamp@),
                name: texts(self.events_name@),
                attributes: attribute_maps(self.events_attributes@),
            },
            links: LinksView {
                trace_id: texts(self.links_trace_id@),
                span_id: texts(self.links_span_id@),
                trace_state: texts(self.links_trace_state@),
                attributes: attribute_maps(self.links_attributes@),
            },
        }
    }
}

/// The name of a span kind.
pub open spec fn span_kind_name(kind: i32) -> Seq<char> {
    if kind == 1 {
        "Internal"@
    } else if kind == 2 {
        "Server"@
    } else if kind == 3 {
        "Client"@
    } else if kind == 4 {
        "Producer"@
    } else if kind == 5 {
        "Consumer"@
    } else {
        "Unspecified"@
    }
}

/// The name of a status code.
pub open spec fn status_code_name(code: i32) -> Seq<char> {
    if code == 1 {
        "Ok"@
    } else if code == 2 {
        "Error"@
    } else {
        "Unset"@
    }
}

/// Converts a span kind to its name.
pub fn span_kind_to_string(kind: i32) -> (r: String)
    ensures
        r@ == span_kind_name(kind),
{
    match kind {
        1 => "Internal".to_owned(),
        2 => "Server".to_owned(),
        3 => "Client".to_owned(),
        4 => "Producer".to_owned(),
        5 => "Consumer".to_owned(),
        _ => "Unspecified".to_owned(),
    }
}

/// Converts a status code to its name.
pub fn status_code_to_string(code: i32) -> (r: String)
    ensures
        r@ == status_code_name(code),
{
    match code {
        1 => "Ok".to_owned(),
        2 => "Error".to_owned(),
        _ => "Unset".to_owned(),
    }
}

} // verus!
