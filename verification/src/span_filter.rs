//! Picking OpenTelemetry spans out of the log records of a function.
use crate::codec::{compact_text, entries_text, json_parsed, parse_json, quoted, reads_as};
use crate::json::{Json, JsonView};
use crate::row::{
    columns, columns_are_found, is_row_line, joined, lines_of_joined, row_lines, row_text,
    rows_text,
};
use crate::span::{texts, SpanView};
use crate::text::{
    byte_len, contains, lemma_line_sizes, lines_of, occurs, occurs_at, split_lines, trim, trimmed,
};
use crate::text_map::map_of;
use vstd::prelude::*;

verus! {

/// The largest record that a Kinesis stream takes, in bytes.
pub const MAX_RECORD_SIZE_BYTES: usize = 1_048_576;

/// A JSON value that is a span: it has a trace and a span identifier.
pub open spec fn is_span(json: JsonView) -> bool {
    json.text_at("TraceId"@) is Some && json.text_at("SpanId"@) is Some
}

/// A text that may be a span: the keys of both identifiers stand in it.
pub open spec fn names_span(text: Seq<char>) -> bool {
    occurs(text, "\"TraceId\":"@) && occurs(text, "\"SpanId\":"@)
}

/// A text that is a span.
pub open spec fn is_span_text(text: Seq<char>) -> bool {
    match json_parsed(text) {
        Ok(json) => is_span(json),
        Err(_) => false,
    }
}

/// The lines that are spans, in order.
pub open spec fn span_lines(lines: Seq<Seq<char>>) -> Seq<Seq<char>>
    decreases lines.len(),
{
    if lines.len() == 0 {
        Seq::empty()
    } else {
        let before = span_lines(lines.drop_last());
        if names_span(lines.last()) && is_span_text(lines.last()) {
            before.push(lines.last())
        } else {
            before
        }
    }
}

/// The message of a structured log entry.
pub open spec fn message_of(json: JsonView) -> Option<Seq<char>> {
    match json.get("fields"@) {
        Some(fields) => fields.text_at("message"@),
        None => None,
    }
}

/// What a record that is one JSON value holds: itself where it is a span, the
/// message of a structured log entry where that is a span.
pub open spec fn whole_span(record: Seq<char>, json: JsonView) -> Seq<Seq<char>> {
    if is_span(json) {
        seq![record]
    } else {
        match message_of(json) {
            Some(message) => if names_span(message) && is_span_text(message) {
                seq![message]
            } else {
                Seq::empty()
            },
            None => Seq::empty(),
        }
    }
}

/// The spans in a record. Nothing is taken from a record that is too large. A
/// record of several lines gives those of its lines that are spans; where that
/// gives none, the record is taken as one JSON value.
pub open spec fn spans_in(record: Seq<char>) -> Seq<Seq<char>> {
    let from_lines = if record.contains('\n') {
        span_lines(lines_of(trimmed(record)))
    } else {
        Seq::empty()
    };
    if byte_len(record) > MAX_RECORD_SIZE_BYTES {
        Seq::empty()
    } else if from_lines.len() > 0 {
        from_lines
    } else {
        match json_parsed(record) {
            Ok(json) => whole_span(record, json),
            Err(_) => Seq::empty(),
        }
    }
}

/// A JSON value is a span.
pub fn has_span_ids(json: &Json) -> (r: bool)
    ensures
        r == is_span(json@),
{
    json.text_at("TraceId").is_some() && json.text_at("SpanId").is_some()
}

/// The keys of both identifiers stand in a text.
pub fn looks_like_span(text: &str) -> (r: bool)
    ensures
        r == names_span(text@),
{
    contains(text, "\"TraceId\":") && contains(text, "\"SpanId\":")
}

/// What to do with a record that is one JSON value.
#[derive(Debug, PartialEq)]
pub enum Choice<'a> {
    /// The record is a span.
    Record,
    /// The record is no span, and this message in it may be one.
    Message(&'a str),
    /// There is no span in the record.
    Nothing,
}

/// What to do with a record that is the given JSON value.
pub fn choose_span(json: &Json) -> (r: Choice<'_>)
    ensures
        r is Record <==> is_span(json@),
        r is Message <==> !is_span(json@) && (message_of(json@) matches Some(m) && names_span(m)),
        r matches Choice::Message(m) ==> message_of(json@) == Some(m@),
{
    if has_span_ids(json) {
        return Choice::Record;
    }
    if let Some(fields) = json.get("fields") {
        if let Some(message) = fields.text_at("message") {
            if looks_like_span(message) {
                return Choice::Message(message);
            }
        }
    }
    Choice::Nothing
}

/// A text is a span.
fn is_span_json(text: &str) -> (r: bool)
    ensures
        r == is_span_text(text@),
{
    match parse_json(text) {
        Ok(json) => has_span_ids(&json),
        Err(_) => false,
    }
}

/// A text with `c` in it, and the other way round.
proof fn lemma_occurs_char(text: Seq<char>, c: char)
    ensures
        occurs(text, seq![c]) == text.contains(c),
{
    if text.contains(c) {
        let i = choose|i: int| 0 <= i < text.len() && text[i] == c;
        assert(text.subrange(i, i + 1) =~= seq![c]);
        assert(occurs_at(text, seq![c], i));
    }
    if occurs(text, seq![c]) {
        let i = choose|i: int| occurs_at(text, seq![c], i);
        assert(text.subrange(i, i + 1)[0] == c);
        assert(text[i] == c);
    }
}

/// The lines of a record that are spans.
fn spans_in_lines(record: &str) -> (r: Vec<String>)
    ensures
        texts(r@) == span_lines(lines_of(trimmed(record@))),
{
    let trimmed_record: &str = trim(record);
    let lines = split_lines(trimmed_record);
    let ghost all = lines_of(trimmed(record@));
    let mut spans: Vec<String> = Vec::new();
    assert(texts(spans@) =~= span_lines(all.take(0)));
    for i in 0..lines.len()
        invariant
            all.len() == lines@.len(),
            forall|j: int| 0 <= j < all.len() ==> (#[trigger] lines@[j])@ == all[j],
            texts(spans@) == span_lines(all.take(i as int)),
    {
        let line: &str = lines[i];
        assert(all.take(i + 1).drop_last() =~= all.take(i as int));
        assert(all.take(i + 1).last() == line@);
        if looks_like_span(line) && is_span_json(line) {
            let ghost before = spans@;
            spans.push(line.to_owned());
            assert(texts(spans@) =~= texts(before).push(line@));
        }
    }
    assert(all.take(all.len() as int) =~= all);
    spans
}

/// The spans in a record, in the order in which they are to be sent. None of
/// them is larger than the record, nor too large for the stream.
pub fn select_spans(record: &str) -> (r: Vec<String>)
    ensures
        texts(r@) == spans_in(record@),
        forall|i: int|
            0 <= i < r@.len() ==> byte_len((#[trigger] r@[i])@) <= byte_len(record@) && byte_len(
                r@[i]@,
            ) <= MAX_RECORD_SIZE_BYTES,
{
    let nothing: Vec<String> = Vec::new();
    assert(texts(nothing@) =~= Seq::empty());
    if record.as_bytes().len() > MAX_RECORD_SIZE_BYTES {
        return nothing;
    }
    proof {
        reveal_strlit("\n");
        assert("\n"@ =~= seq!['\n']);
        lemma_occurs_char(record@, '\n');
    }
    if contains(record, "\n") {
        let spans = spans_in_lines(record);
        if spans.len() > 0 {
            proof {
                let lines = lines_of(trimmed(record@));
                span_lines_are_spans(lines);
                lemma_line_sizes(record@);
                assert forall|i: int| 0 <= i < spans@.len() implies byte_len(
                    (#[trigger] spans@[i])@,
                ) <= byte_len(record@) by {
                    assert(texts(spans@)[i] == span_lines(lines)[i]);
                    assert(lines.contains(spans@[i]@));
                }
            }
            return spans;
        }
        assert(span_lines(lines_of(trimmed(record@))) =~= Seq::empty()) by {
            assert(texts(spans@).len() == 0);
        }
    }
    let mut spans: Vec<String> = Vec::new();
    if let Ok(json) = parse_json(record) {
        match choose_span(&json) {
            Choice::Record => {
                spans.push(record.to_owned());
                assert(texts(spans@) =~= seq![record@]);
            },
            Choice::Message(message) => {
                if is_span_json(message) {
                    proof {
                        let path = seq!["fields"@, "message"@];
                        reveal_with_fuel(JsonView::at, 3);
                        assert(path.drop_first() =~= seq!["message"@]);
                        assert(json@.at(path) == Some(JsonView::Text(message@)));
                    }
                    spans.push(message.to_owned());
                    assert(texts(spans@) =~= seq![message@]);
                } else {
                    assert(texts(spans@) =~= Seq::empty());
                }
            },
            Choice::Nothing => {
                assert(texts(spans@) =~= Seq::empty());
            },
        }
    } else {
        assert(texts(spans@) =~= Seq::empty());
    }
    spans
}

/// A record gives nothing but spans.
pub proof fn only_spans_are_selected(record: Seq<char>, i: int)
    requires
        0 <= i < spans_in(record).len(),
    ensures
        is_span_text(spans_in(record)[i]),
{
    span_lines_are_spans(lines_of(trimmed(record)));
}

/// A span of one line that comes out of a record gives itself when it is taken
/// as a record.
pub proof fn spans_give_themselves(record: Seq<char>, i: int)
    requires
        0 <= i < spans_in(record).len(),
        !spans_in(record)[i].contains('\n'),
        byte_len(spans_in(record)[i]) <= MAX_RECORD_SIZE_BYTES,
    ensures
        spans_in(spans_in(record)[i]) == seq![spans_in(record)[i]],
{
    only_spans_are_selected(record, i);
}

/// The lines that are taken are spans, and they are lines of the record.
pub proof fn span_lines_are_spans(lines: Seq<Seq<char>>)
    ensures
        forall|i: int|
            0 <= i < span_lines(lines).len() ==> is_span_text(#[trigger] span_lines(lines)[i])
                && lines.contains(span_lines(lines)[i]),
    decreases lines.len(),
{
    if lines.len() > 0 {
        let before = lines.drop_last();
        span_lines_are_spans(before);
        assert forall|i: int| 0 <= i < span_lines(lines).len() implies is_span_text(
            #[trigger] span_lines(lines)[i],
        ) && lines.contains(span_lines(lines)[i]) by {
            if i < span_lines(before).len() {
                let line = span_lines(before)[i];
                assert(before.contains(line));
                let j = choose|j: int| 0 <= j < before.len() && before[j] == line;
                assert(lines[j] == line);
            } else {
                assert(lines[lines.len() - 1] == lines.last());
            }
        }
    }
}

/// No line that is a span and names itself one is passed over: where all lines
/// are of that kind, all are taken.
proof fn lemma_all_span_lines(lines: Seq<Seq<char>>)
    requires
        forall|i: int|
            0 <= i < lines.len() ==> names_span(#[trigger] lines[i]) && is_span_text(lines[i]),
    ensures
        span_lines(lines) == lines,
    decreases lines.len(),
{
    if lines.len() > 0 {
        lemma_all_span_lines(lines.drop_last());
        assert(lines.last() == lines[lines.len() - 1]);
        assert(lines =~= lines.drop_last().push(lines.last()));
    } else {
        assert(span_lines(lines) =~= lines);
    }
}

/// What stands in a part of a text stands in the text.
proof fn lemma_occurs_within(
    before: Seq<char>,
    middle: Seq<char>,
    after: Seq<char>,
    part: Seq<char>,
)
    requires
        occurs(middle, part),
    ensures
        occurs(before + middle + after, part),
{
    let i = choose|i: int| occurs_at(middle, part, i);
    let text = before + middle + after;
    assert(text.subrange(i + before.len(), i + before.len() + part.len()) =~= middle.subrange(
        i,
        i + part.len(),
    ));
    assert(occurs_at(text, part, i + before.len()));
}

/// The key of every entry stands in the text of the entries.
proof fn lemma_key_occurs(entries: Seq<(Seq<char>, JsonView)>, i: int)
    requires
        0 <= i < entries.len(),
    ensures
        occurs(entries_text(entries), quoted(entries[i].0).push(':')),
    decreases entries.len(),
{
    let key = quoted(entries[i].0).push(':');
    let last = quoted(entries.last().0) + seq![':'] + compact_text(entries.last().1);
    if i == entries.len() - 1 {
        assert(last.subrange(0, key.len() as int) =~= key);
        assert(occurs_at(last, key, 0));
        if entries.len() > 1 {
            lemma_occurs_within(
                entries_text(entries.drop_last()) + seq![','],
                last,
                Seq::empty(),
                key,
            );
            assert(entries_text(entries.drop_last()) + seq![','] + last + Seq::<char>::empty()
                =~= entries_text(entries));
        }
    } else {
        lemma_key_occurs(entries.drop_last(), i);
        lemma_occurs_within(
            Seq::empty(),
            entries_text(entries.drop_last()),
            seq![','] + last,
            key,
        );
        assert(Seq::<char>::empty() + entries_text(entries.drop_last()) + (seq![','] + last)
            =~= entries_text(entries));
    }
}

/// The line of a row names a span.
pub proof fn rows_name_spans(row: SpanView)
    ensures
        names_span(row_text(row)),
{
    let entries = columns(row);
    lemma_key_occurs(entries, 1);
    lemma_key_occurs(entries, 2);
    reveal_strlit("TraceId");
    reveal_strlit("SpanId");
    reveal_strlit("\"TraceId\":");
    reveal_strlit("\"SpanId\":");
    assert(quoted("TraceId"@).push(':') =~= "\"TraceId\":"@);
    assert(quoted("SpanId"@).push(':') =~= "\"SpanId\":"@);
    lemma_occurs_within(seq!['{'], entries_text(entries), seq!['}'], "\"TraceId\":"@);
    lemma_occurs_within(seq!['{'], entries_text(entries), seq!['}'], "\"SpanId\":"@);
}

/// The columns of a row are a span.
proof fn lemma_columns_are_span(row: SpanView)
    ensures
        is_span(JsonView::Object(map_of(columns(row)))),
{
    columns_are_found(row, 1);
    columns_are_found(row, 2);
}

/// Lines that begin and end with braces have no white space around them when
/// they are joined.
proof fn lemma_joined_braces(rows: Seq<SpanView>)
    requires
        rows.len() > 0,
    ensures
        rows_text(rows).len() > 0,
        rows_text(rows).first() == '{',
        rows_text(rows).last() == '}',
    decreases rows.len(),
{
    let lines = row_lines(rows);
    let last = row_text(rows.last());
    assert(last.last() == '}' && last.first() == '{');
    if rows.len() > 1 {
        lemma_joined_braces(rows.drop_last());
        assert(lines.drop_last() =~= row_lines(rows.drop_last()));
    }
}

/// The rows that are written are the spans that are found: the lines of a
/// document that fits into a record are all selected, in their order, and
/// nothing else is.
pub proof fn written_rows_are_selected(rows: Seq<SpanView>)
    requires
        rows.len() > 0,
        forall|i: int| 0 <= i < rows.len() ==> is_row_line(#[trigger] row_lines(rows)[i], rows[i]),
        byte_len(rows_text(rows)) <= MAX_RECORD_SIZE_BYTES,
    ensures
        spans_in(rows_text(rows)) == row_lines(rows),
{
    let text = rows_text(rows);
    let lines = row_lines(rows);
    assert forall|i: int| 0 <= i < lines.len() implies names_span(#[trigger] lines[i])
        && is_span_text(lines[i]) && !lines[i].contains('\n') by {
        rows_name_spans(rows[i]);
        lemma_columns_are_span(rows[i]);
    }
    lemma_all_span_lines(lines);
    lines_of_joined(lines);
    lemma_joined_braces(rows);
    assert(trimmed(text) == text);
    if text.contains('\n') {
        assert(span_lines(lines_of(trimmed(text))) == lines);
    } else {
        if lines.len() > 1 {
            assert(joined(lines) == joined(lines.drop_last()).push('\n') + lines.last());
            assert(text[joined(lines.drop_last()).len() as int] == '\n');
        }
        assert(lines =~= seq![text]);
    }
}

/// A row that stands as the message of a structured log entry is selected: the
/// entry gives that row and nothing else.
pub proof fn logged_rows_are_selected(record: Seq<char>, entry: JsonView, row: SpanView)
    requires
        reads_as(record, entry),
        !record.contains('\n'),
        byte_len(record) <= MAX_RECORD_SIZE_BYTES,
        !is_span(entry),
        message_of(entry) == Some(row_text(row)),
        is_row_line(row_text(row), row),
    ensures
        spans_in(record) == seq![row_text(row)],
{
    rows_name_spans(row);
    lemma_columns_are_span(row);
}

/// A record that is too large gives nothing.
pub proof fn large_records_give_nothing(record: Seq<char>)
    requires
        byte_len(record) > MAX_RECORD_SIZE_BYTES,
    ensures
        spans_in(record).len() == 0,
{
}

} // verus!
