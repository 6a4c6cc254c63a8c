//! Rows: what the lines that are written read back as.
use crate::codec::{json_parsed, object_text};
use crate::json::JsonView;
use crate::row::{
    attribute_maps_json, attributes_json, columns, columns_are_found, is_row_line, lines_of_joined,
    row_lines, row_text, rows_text,
};
use crate::span::SpanView;
use crate::text::lines_of;
use crate::text_map::{lemma_map_of_absent, map_of};
use vstd::prelude::*;

verus! {

/// The names of the columns, in the order of the table.
pub open spec fn column_names() -> Seq<Seq<char>> {
    seq![
        "Timestamp"@,
        "TraceId"@,
        "SpanId"@,
        "ParentSpanId"@,
        "TraceState"@,
        "SpanName"@,
        "SpanKind"@,
        "ServiceName"@,
        "ResourceAttributes"@,
        "ScopeName"@,
        "ScopeVersion"@,
        "SpanAttributes"@,
        "Duration"@,
        "StatusCode"@,
        "StatusMessage"@,
        "Events.Timestamp"@,
        "Events.Name"@,
        "Events.Attributes"@,
        "Links.TraceId"@,
        "Links.SpanId"@,
        "Links.TraceState"@,
        "Links.Attributes"@,
    ]
}

/// `json` is an array of the texts of `list`, place by place.
pub open spec fn is_text_array(json: JsonView, list: Seq<Seq<char>>) -> bool {
    json matches JsonView::Array(items) && items.len() == list.len() && forall|i: int|
        0 <= i < list.len() ==> #[trigger] items[i] == JsonView::Text(list[i])
}

/// `json` is an object with the texts of `map`, key by key.
pub open spec fn is_text_map(json: JsonView, map: Map<Seq<char>, Seq<char>>) -> bool {
    json matches JsonView::Object(m) && m.dom() == map.dom() && forall|key: Seq<char>|
        map.dom().contains(key) ==> #[trigger] m[key] == JsonView::Text(map[key])
}

/// `json` is an array of objects with the texts of `list`, place by place.
pub open spec fn is_map_array(json: JsonView, list: Seq<Map<Seq<char>, Seq<char>>>) -> bool {
    json matches JsonView::Array(items) && items.len() == list.len() && forall|i: int|
        0 <= i < list.len() ==> is_text_map(#[trigger] items[i], list[i])
}

/// `m` holds the texts and the number of `row`, each in its column.
pub open spec fn holds_plain_columns(m: Map<Seq<char>, JsonView>, row: SpanView) -> bool {
    &&& m["Timestamp"@] == JsonView::Text(row.timestamp)
    &&& m["TraceId"@] == JsonView::Text(row.trace_id)
    &&& m["SpanId"@] == JsonView::Text(row.span_id)
    &&& m["ParentSpanId"@] == JsonView::Text(row.parent_span_id)
    &&& m["TraceState"@] == JsonView::Text(row.trace_state)
    &&& m["SpanName"@] == JsonView::Text(row.span_name)
    &&& m["SpanKind"@] == JsonView::Text(row.span_kind)
    &&& m["ServiceName"@] == JsonView::Text(row.service_name)
    &&& m["ScopeName"@] == JsonView::Text(row.scope_name)
    &&& m["ScopeVersion"@] == JsonView::Text(row.scope_version)
    &&& m["Duration"@] == JsonView::Int(row.duration as int)
    &&& m["StatusCode"@] == JsonView::Text(row.status_code)
    &&& m["StatusMessage"@] == JsonView::Text(row.status_message)
}

/// `m` holds the attributes, the events and the links of `row`, each in its
/// column, place by place and key by key.
pub open spec fn holds_nested_columns(m: Map<Seq<char>, JsonView>, row: SpanView) -> bool {
    &&& is_text_map(m["ResourceAttributes"@], row.resource_attributes)
    &&& is_text_map(m["SpanAttributes"@], row.span_attributes)
    &&& is_text_array(m["Events.Timestamp"@], row.events.timestamp)
    &&& is_text_array(m["Events.Name"@], row.events.name)
    &&& is_map_array(m["Events.Attributes"@], row.events.attributes)
    &&& is_text_array(m["Links.TraceId"@], row.links.trace_id)
    &&& is_text_array(m["Links.SpanId"@], row.links.span_id)
    &&& is_text_array(m["Links.TraceState"@], row.links.trace_state)
    &&& is_map_array(m["Links.Attributes"@], row.links.attributes)
}

/// The columns of a row stand in the order of the table.
pub proof fn columns_stand_in_order(row: SpanView)
    ensures
        columns(row).len() == column_names().len(),
        forall|i: int|
            0 <= i < column_names().len() ==> (#[trigger] columns(row)[i]).0 == column_names()[i],
{
}

/// The columns hold what the row holds, and there are no other columns.
proof fn lemma_read_columns(row: SpanView)
    ensures
        ({
            let m = map_of(columns(row));
            &&& forall|key: Seq<char>| #[trigger]
                m.dom().contains(key) <==> column_names().contains(key)
            &&& forall|i: int|
                0 <= i < columns(row).len() ==> #[trigger] columns(row)[i] == (
                    column_names()[i],
                    m[column_names()[i]],
                )
            &&& holds_plain_columns(m, row)
            &&& holds_nested_columns(m, row)
        }),
{
    let entries = columns(row);
    let m = map_of(entries);
    let names = column_names();
    assert forall|i: int| 0 <= i < entries.len() implies m.dom().contains(names[i])
        && #[trigger] entries[i] == (names[i], m[names[i]]) by {
        columns_are_found(row, i);
    }
    assert forall|key: Seq<char>| #[trigger] m.dom().contains(key) <==> names.contains(key) by {
        if !names.contains(key) {
            assert forall|j: int| 0 <= j < entries.len() implies #[trigger] entries[j].0 != key by {
                assert(names[j] == entries[j].0);
            }
            lemma_map_of_absent(entries, key);
        }
        if names.contains(key) {
            let i = choose|i: int| 0 <= i < names.len() && names[i] == key;
            assert(entries[i] == (names[i], m[names[i]]));
        }
    }
    assert(holds_plain_columns(m, row)) by {
        assert(entries[0].0 == "Timestamp"@ && entries[1].0 == "TraceId"@);
        assert(entries[2].0 == "SpanId"@ && entries[3].0 == "ParentSpanId"@);
        assert(entries[4].0 == "TraceState"@ && entries[5].0 == "SpanName"@);
        assert(entries[6].0 == "SpanKind"@ && entries[7].0 == "ServiceName"@);
        assert(entries[9].0 == "ScopeName"@ && entries[10].0 == "ScopeVersion"@);
        assert(entries[12].0 == "Duration"@ && entries[13].0 == "StatusCode"@);
        assert(entries[14].0 == "StatusMessage"@);
    }
    assert(holds_nested_columns(m, row)) by {
        assert(entries[8].0 == "ResourceAttributes"@ && entries[11].0 == "SpanAttributes"@);
        assert(entries[15].0 == "Events.Timestamp"@ && entries[16].0 == "Events.Name"@);
        assert(entries[17].0 == "Events.Attributes"@ && entries[18].0 == "Links.TraceId"@);
        assert(entries[19].0 == "Links.SpanId"@ && entries[20].0 == "Links.TraceState"@);
        assert(entries[21].0 == "Links.Attributes"@);
        lemma_text_map(row.resource_attributes);
        lemma_text_map(row.span_attributes);
        lemma_map_array(row.events.attributes);
        lemma_map_array(row.links.attributes);
    }
}

/// Attributes as JSON hold their texts key by key.
proof fn lemma_text_map(attributes: Map<Seq<char>, Seq<char>>)
    ensures
        is_text_map(attributes_json(attributes), attributes),
{
    assert(attributes_json(attributes)->Object_0.dom() =~= attributes.dom());
}

/// A list of attributes as JSON holds them place by place.
proof fn lemma_map_array(list: Seq<Map<Seq<char>, Seq<char>>>)
    ensures
        is_map_array(attribute_maps_json(list), list),
{
    let items = attribute_maps_json(list)->Array_0;
    assert forall|i: int| 0 <= i < list.len() implies is_text_map(#[trigger] items[i], list[i]) by {
        lemma_text_map(list[i]);
    }
}

/// The line of a row reads back as an object that has the columns of the table
/// and no others. Each holds what the row holds: texts as texts, lists place by
/// place, attributes key by key. In the line the columns stand in their order.
pub proof fn lines_read_back_as_rows(line: Seq<char>, row: SpanView)
    requires
        is_row_line(line, row),
    ensures
        json_parsed(line) is Ok,
        json_parsed(line)->Ok_0 is Object,
        ({
            let m = json_parsed(line)->Ok_0->Object_0;
            &&& forall|key: Seq<char>| #[trigger]
                m.dom().contains(key) <==> column_names().contains(key)
            &&& holds_plain_columns(m, row)
            &&& holds_nested_columns(m, row)
            &&& line == object_text(
                Seq::new(
                    column_names().len(),
                    |i: int| (column_names()[i], m[column_names()[i]]),
                ),
            )
        }),
{
    lemma_read_columns(row);
    let m = json_parsed(line)->Ok_0->Object_0;
    assert(columns(row) =~= Seq::new(
        column_names().len(),
        |i: int| (column_names()[i], m[column_names()[i]]),
    ));
}

/// Rows are written one to a line, in their order, and no rows are nothing.
pub proof fn each_row_has_its_line(rows: Seq<SpanView>)
    ensures
        rows.len() == 0 ==> rows_text(rows).len() == 0,
        rows.len() > 0 && (forall|i: int|
            0 <= i < rows.len() ==> !row_text(#[trigger] rows[i]).contains('\n')) ==> lines_of(
            rows_text(rows),
        ).len() == rows.len() && forall|i: int|
            0 <= i < rows.len() ==> #[trigger] lines_of(rows_text(rows))[i] == row_text(rows[i]),
{
    if rows.len() > 0 && (forall|i: int|
        0 <= i < rows.len() ==> !row_text(#[trigger] rows[i]).contains('\n')) {
        lines_of_joined(row_lines(rows));
    }
}

} // verus!
