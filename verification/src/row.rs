//! Rows of the ClickHouse table as newline-delimited JSON.
use crate::attributes::{attributes_view, Attributes};
use crate::codec::{
    column_values, json_parsed, object_text, parse_json, part_entries, reads_as, to_value,
    verbatim_keys, write_object,
};
use crate::json::{entry_models, lemma_entry_models, lemma_models, models, Json, JsonView};
use crate::otlp::{convert_document, rows_of, span_views};
use crate::span::{attribute_maps, texts, ClickhouseSpan, SpanView};
use crate::span_filter::{spans_in, written_rows_are_selected, MAX_RECORD_SIZE_BYTES};
use crate::text::{byte_len, lemma_lines_of_cons, lemma_lines_of_join, lines_of};
use crate::text_map::{distinct_keys, keyed, lemma_map_of_last_entry, map_of};
use vstd::prelude::*;

verus! {

/// A list of texts as JSON.
pub open spec fn texts_json(list: Seq<Seq<char>>) -> JsonView {
    JsonView::Array(list.map_values(|s: Seq<char>| JsonView::Text(s)))
}

/// Attributes as JSON.
pub open spec fn attributes_json(attributes: Map<Seq<char>, Seq<char>>) -> JsonView {
    JsonView::Object(attributes.map_values(|s: Seq<char>| JsonView::Text(s)))
}

/// A list of attributes as JSON.
pub open spec fn attribute_maps_json(list: Seq<Map<Seq<char>, Seq<char>>>) -> JsonView {
    JsonView::Array(list.map_values(|m: Map<Seq<char>, Seq<char>>| attributes_json(m)))
}

/// The columns of a row, in the order of the table.
pub open spec fn columns(span: SpanView) -> Seq<(Seq<char>, JsonView)> {
    seq![
        ("Timestamp"@, JsonView::Text(span.timestamp)),
        ("TraceId"@, JsonView::Text(span.trace_id)),
        ("SpanId"@, JsonView::Text(span.span_id)),
        ("ParentSpanId"@, JsonView::Text(span.parent_span_id)),
        ("TraceState"@, JsonView::Text(span.trace_state)),
        ("SpanName"@, JsonView::Text(span.span_name)),
        ("SpanKind"@, JsonView::Text(span.span_kind)),
        ("ServiceName"@, JsonView::Text(span.service_name)),
        ("ResourceAttributes"@, attributes_json(span.resource_attributes)),
        ("ScopeName"@, JsonView::Text(span.scope_name)),
        ("ScopeVersion"@, JsonView::Text(span.scope_version)),
        ("SpanAttributes"@, attributes_json(span.span_attributes)),
        ("Duration"@, JsonView::Int(span.duration as int)),
        ("StatusCode"@, JsonView::Text(span.status_code)),
        ("StatusMessage"@, JsonView::Text(span.status_message)),
        ("Events.Timestamp"@, texts_json(span.events.timestamp)),
        ("Events.Name"@, texts_json(span.events.name)),
        ("Events.Attributes"@, attribute_maps_json(span.events.attributes)),
        ("Links.TraceId"@, texts_json(span.links.trace_id)),
        ("Links.SpanId"@, texts_json(span.links.span_id)),
        ("Links.TraceState"@, texts_json(span.links.trace_state)),
        ("Links.Attributes"@, attribute_maps_json(span.links.attributes)),
    ]
}

/// A row as one line of JSON.
pub open spec fn row_text(span: SpanView) -> Seq<char> {
    object_text(columns(span))
}

/// `lines` with a line break between each two of them.
pub open spec fn joined(lines: Seq<Seq<char>>) -> Seq<char>
    decreases lines.len(),
{
    if lines.len() == 0 {
        Seq::empty()
    } else if lines.len() == 1 {
        lines[0]
    } else {
        joined(lines.drop_last()).push('\n') + lines.last()
    }
}

/// The lines of a list of rows.
pub open spec fn row_lines(rows: Seq<SpanView>) -> Seq<Seq<char>> {
    rows.map_values(|row: SpanView| row_text(row))
}

/// Rows as newline-delimited JSON.
pub open spec fn rows_text(rows: Seq<SpanView>) -> Seq<char> {
    joined(row_lines(rows))
}

/// `line` is a line that `from_str` reads as the columns of `row`.
pub open spec fn is_row_line(line: Seq<char>, row: SpanView) -> bool {
    &&& line == row_text(row)
    &&& !line.contains('\n')
    &&& reads_as(line, JsonView::Object(map_of(columns(row))))
}

/// The names of the columns need no escape and all differ, and all columns hold
/// column values.
proof fn lemma_columns(span: SpanView)
    ensures
        verbatim_keys(columns(span)),
        column_values(columns(span)),
        distinct_keys(columns(span)),
{
    reveal_strlit("Timestamp");
    reveal_strlit("TraceId");
    reveal_strlit("SpanId");
    reveal_strlit("ParentSpanId");
    reveal_strlit("TraceState");
    reveal_strlit("SpanName");
    reveal_strlit("SpanKind");
    reveal_strlit("ServiceName");
    reveal_strlit("ResourceAttributes");
    reveal_strlit("ScopeName");
    reveal_strlit("ScopeVersion");
    reveal_strlit("SpanAttributes");
    reveal_strlit("Duration");
    reveal_strlit("StatusCode");
    reveal_strlit("StatusMessage");
    reveal_strlit("Events.Timestamp");
    reveal_strlit("Events.Name");
    reveal_strlit("Events.Attributes");
    reveal_strlit("Links.TraceId");
    reveal_strlit("Links.SpanId");
    reveal_strlit("Links.TraceState");
    reveal_strlit("Links.Attributes");
    let entries = columns(span);
    assert forall|i: int, j: int| 0 <= i < j < entries.len() implies #[trigger] entries[i].0
        != #[trigger] entries[j].0 by {
        let (a, b) = (entries[i].0, entries[j].0);
        assert(a.len() != b.len() || a[4] != b[4] || a[6] != b[6]);
    }
}

/// What a line reads back as holds every column of the row under its name.
pub proof fn columns_are_found(span: SpanView, i: int)
    requires
        0 <= i < columns(span).len(),
    ensures
        JsonView::Object(map_of(columns(span))).get(columns(span)[i].0) == Some(columns(span)[i].1),
{
    let entries = columns(span);
    lemma_columns(span);
    assert forall|j: int| i < j < entries.len() implies #[trigger] entries[j].0 != entries[i].0 by {
        assert(entries[i].0 != entries[j].0);
    }
    lemma_map_of_last_entry(entries, i);
}

/// A list of texts as JSON.
fn json_of_texts(list: &Vec<String>) -> (r: Json)
    ensures
        r@ == texts_json(texts(list@)),
{
    let mut items: Vec<Json> = Vec::new();
    for i in 0..list.len()
        invariant
            items@.len() == i,
            forall|j: int| 0 <= j < i ==> (#[trigger] items@[j])@ == JsonView::Text(list@[j]@),
    {
        items.push(Json::Text(list[i].clone()));
    }
    proof {
        lemma_models(items@);
        assert(JsonView::Array(models(items@)) == texts_json(texts(list@))) by {
            assert(models(items@) =~= texts(list@).map_values(|s: Seq<char>| JsonView::Text(s)));
        }
    }
    Json::Array(items)
}

/// Taking each value to a JSON text takes the map to the object of these texts.
proof fn lemma_text_entries(entries: Seq<(String, String)>, made: Seq<(Seq<char>, JsonView)>)
    requires
        made.len() == entries.len(),
        forall|i: int|
            0 <= i < entries.len() ==> #[trigger] made[i] == (
                entries[i].0@,
                JsonView::Text(entries[i].1@),
            ),
    ensures
        JsonView::Object(map_of(made)) == attributes_json(
            map_of(keyed(entries)).map_values(|v: String| v@),
        ),
    decreases entries.len(),
{
    let held = map_of(keyed(entries)).map_values(|v: String| v@);
    if entries.len() > 0 {
        lemma_text_entries(entries.drop_last(), made.drop_last());
        assert(keyed(entries).drop_last() =~= keyed(entries.drop_last()));
        assert(made.last() == made[made.len() - 1]);
    }
    assert(map_of(made) =~= held.map_values(|s: Seq<char>| JsonView::Text(s)));
}

/// Attributes as JSON.
fn json_of_attributes(attributes: &Attributes) -> (r: Json)
    ensures
        r@ == attributes_json(attributes_view(*attributes)),
{
    let entries = attributes.entries();
    let mut out: Vec<(String, Json)> = Vec::new();
    for i in 0..entries.len()
        invariant
            out@.len() == i,
            forall|j: int|
                0 <= j < i ==> (#[trigger] out@[j]).0@ == entries@[j].0@ && out@[j].1@
                    == JsonView::Text(entries@[j].1@),
    {
        out.push((entries[i].0.clone(), Json::Text(entries[i].1.clone())));
    }
    proof {
        lemma_entry_models(out@);
        lemma_text_entries(entries@, entry_models(out@));
    }
    Json::Object(out)
}

/// A list of attributes as JSON.
fn json_of_attribute_maps(list: &Vec<Attributes>) -> (r: Json)
    ensures
        r@ == attribute_maps_json(attribute_maps(list@)),
{
    let mut items: Vec<Json> = Vec::new();
    for i in 0..list.len()
        invariant
            items@.len() == i,
            forall|j: int|
                0 <= j < i ==> (#[trigger] items@[j])@ == attributes_json(attributes_view(list@[j])),
    {
        items.push(json_of_attributes(&list[i]));
    }
    proof {
        lemma_models(items@);
        assert(models(items@) =~= attribute_maps(list@).map_values(
            |m: Map<Seq<char>, Seq<char>>| attributes_json(m),
        ));
    }
    Json::Array(items)
}

/// Adds a column to `entries`.
fn add_column(entries: &mut Vec<(String, serde_json::Value)>, name: &str, value: Json)
    ensures
        part_entries(final(entries)@) == part_entries(old(entries)@).push((name@, value@)),
{
    let ghost before = entries@;
    entries.push((name.to_owned(), to_value(&value)));
    assert(part_entries(entries@) =~= part_entries(before).push((name@, value@)));
}

/// Writes a row as one line of JSON.
pub fn write_row(span: &ClickhouseSpan) -> (r: Result<String, serde_json::Error>)
    ensures
        r is Ok,
        r matches Ok(line) ==> is_row_line(line@, span@),
{
    let mut entries: Vec<(String, serde_json::Value)> = Vec::new();
    add_column(&mut entries, "Timestamp", Json::Text(span.Timestamp.clone()));
    add_column(&mut entries, "TraceId", Json::Text(span.TraceId.clone()));
    add_column(&mut entries, "SpanId", Json::Text(span.SpanId.clone()));
    add_column(&mut entries, "ParentSpanId", Json::Text(span.ParentSpanId.clone()));
    add_column(&mut entries, "TraceState", Json::Text(span.TraceState.clone()));
    add_column(&mut entries, "SpanName", Json::Text(span.SpanName.clone()));
    add_column(&mut entries, "SpanKind", Json::Text(span.SpanKind.clone()));
    add_column(&mut entries, "ServiceName", Json::Text(span.ServiceName.clone()));
    add_column(&mut entries, "ResourceAttributes", json_of_attributes(&span.ResourceAttributes));
    add_column(&mut entries, "ScopeName", Json::Text(span.ScopeName.clone()));
    add_column(&mut entries, "ScopeVersion", Json::Text(span.ScopeVersion.clone()));
    add_column(&mut entries, "SpanAttributes", json_of_attributes(&span.SpanAttributes));
    add_column(&mut entries, "Duration", Json::Unsigned(span.Duration));
    add_column(&mut entries, "StatusCode", Json::Text(span.StatusCode.clone()));
    add_column(&mut entries, "StatusMessage", Json::Text(span.StatusMessage.clone()));
    add_column(&mut entries, "Events.Timestamp", json_of_texts(&span.events_timestamp));
    add_column(&mut entries, "Events.Name", json_of_texts(&span.events_name));
    add_column(&mut entries, "Events.Attributes", json_of_attribute_maps(&span.events_attributes));
    add_column(&mut entries, "Links.TraceId", json_of_texts(&span.links_trace_id));
    add_column(&mut entries, "Links.SpanId", json_of_texts(&span.links_span_id));
    add_column(&mut entries, "Links.TraceState", json_of_texts(&span.links_trace_state));
    add_column(&mut entries, "Links.Attributes", json_of_attribute_maps(&span.links_attributes));
    proof {
        assert(part_entries(entries@) =~= columns(span@));
        lemma_columns(span@);
    }
    write_object(entries)
}

/// What stands before the last line of `lines`, and the last line.
proof fn lemma_joined_push(lines: Seq<Seq<char>>, line: Seq<char>)
    ensures
        lines.len() == 0 ==> joined(lines.push(line)) == line,
        lines.len() > 0 ==> joined(lines.push(line)) == joined(lines).push('\n') + line,
{
    assert(lines.push(line).drop_last() =~= lines);
}

/// Lines that have no line break in them are the lines of what joining them
/// makes.
pub proof fn lines_of_joined(lines: Seq<Seq<char>>)
    requires
        lines.len() > 0,
        forall|i: int| 0 <= i < lines.len() ==> !(#[trigger] lines[i]).contains('\n'),
    ensures
        lines_of(joined(lines)) == lines,
    decreases lines.len(),
{
    let last = lines.last();
    assert(last == lines[lines.len() - 1]);
    lemma_lines_of_cons(last, Seq::empty());
    if lines.len() == 1 {
        assert(lines =~= seq![lines[0]]);
    } else {
        lines_of_joined(lines.drop_last());
        lemma_lines_of_join(joined(lines.drop_last()), last);
        assert(lines =~= lines.drop_last() + seq![last]);
    }
}

/// Writes rows as newline-delimited JSON.
pub fn write_rows(spans: &Vec<ClickhouseSpan>) -> (r: Result<String, serde_json::Error>)
    ensures
        r is Ok,
        r matches Ok(text) ==> text@ == rows_text(span_views(spans@)),
        forall|i: int|
            0 <= i < spans@.len() ==> is_row_line(
                #[trigger] row_lines(span_views(spans@))[i],
                spans@[i]@,
            ),
{
    let ghost rows = span_views(spans@);
    let ghost lines = row_lines(rows);
    let mut result: String = String::new();
    for i in 0..spans.len()
        invariant
            rows == span_views(spans@),
            lines == row_lines(rows),
            result@ == joined(lines.take(i as int)),
            forall|j: int| 0 <= j < i ==> is_row_line(#[trigger] lines[j], spans@[j]@),
    {
        let line: String = match write_row(&spans[i]) {
            Ok(line) => line,
            Err(e) => return Err(e),
        };
        proof {
            assert(lines[i as int] == line@);
            assert(lines.take(i + 1) =~= lines.take(i as int).push(line@));
            lemma_joined_push(lines.take(i as int), line@);
        }
        if i > 0 {
            result.append("\n");
            proof {
                reveal_strlit("\n");
                assert("\n"@ =~= seq!['\n']);
                assert(result@ =~= joined(lines.take(i as int)).push('\n'));
            }
        }
        result.append(line.as_str());
        assert(result@ =~= joined(lines.take(i + 1)));
    }
    assert(lines.take(lines.len() as int) =~= lines);
    Ok(result)
}

/// Turns an OTLP document into newline-delimited JSON, one object for each span.
///
/// The lines read back as the rows, and where the text fits into a record they
/// are the spans that the filter finds in it. A document that is no JSON gives
/// the error with which it is refused.
pub fn transform_otlp_to_clickhouse(otlp_json: &str) -> (r: Result<String, serde_json::Error>)
    ensures
        r is Ok <==> json_parsed(otlp_json@) is Ok,
        r matches Err(e) ==> json_parsed(otlp_json@)->Err_0 == e,
        r matches Ok(text) ==> {
            let rows = rows_of(json_parsed(otlp_json@)->Ok_0);
            &&& text@ == rows_text(rows)
            &&& forall|i: int|
                0 <= i < rows.len() ==> is_row_line(#[trigger] row_lines(rows)[i], rows[i])
            &&& rows.len() > 0 ==> lines_of(text@) == row_lines(rows)
            &&& rows.len() > 0 && byte_len(text@) <= MAX_RECORD_SIZE_BYTES ==> spans_in(
                text@,
            ) == row_lines(rows)
        },
{
    let otlp = match parse_json(otlp_json) {
        Ok(otlp) => otlp,
        Err(e) => return Err(e),
    };
    let spans = convert_document(&otlp);
    match write_rows(&spans) {
        Ok(text) => {
            proof {
                let rows = span_views(spans@);
                if rows.len() > 0 {
                    lines_of_joined(row_lines(rows));
                    if byte_len(text@) <= MAX_RECORD_SIZE_BYTES {
                        written_rows_are_selected(rows);
                    }
                }
            }
            Ok(text)
        },
        Err(e) => Err(e),
    }
}

} // verus!
