//! Log records: which spans a record gives.
use crate::codec::json_parsed;
use crate::json::JsonView;
use crate::laws::member;
use crate::span_filter::{is_span, is_span_text, message_of, names_span, span_lines, spans_in};
use crate::text::{lines_of, occurs, trimmed};
use vstd::prelude::*;
use vstd::utf8::encode_utf8;

verus! {

/// A text stands under `key`.
pub open spec fn has_text(value: JsonView, key: Seq<char>) -> bool {
    member(value, key) matches Some(JsonView::Text(_))
}

/// A text reads as an object with both identifiers.
pub open spec fn reads_as_span(text: Seq<char>) -> bool {
    match json_parsed(text) {
        Ok(value) => has_text(value, "TraceId"@) && has_text(value, "SpanId"@),
        Err(_) => false,
    }
}

/// The keys of both identifiers stand in a text.
pub open spec fn has_both_keys(text: Seq<char>) -> bool {
    occurs(text, "\"TraceId\":"@) && occurs(text, "\"SpanId\":"@)
}

/// A text is a span in a place where most texts are not: it names both keys and
/// reads as a span.
pub open spec fn is_found_span(text: Seq<char>) -> bool {
    has_both_keys(text) && reads_as_span(text)
}

/// A record is small enough for the stream: it takes no more than one mebibyte in
/// UTF-8.
pub open spec fn fits(record: Seq<char>) -> bool {
    encode_utf8(record).len() <= 1_048_576
}

/// The lines of a record without the white space around it.
pub open spec fn record_lines(record: Seq<char>) -> Seq<Seq<char>> {
    lines_of(trimmed(record))
}

/// No line of a record is a span: it has but one line, or none of its lines is
/// one.
pub open spec fn no_span_line(record: Seq<char>) -> bool {
    record.contains('\n') ==> forall|i: int|
        0 <= i < record_lines(record).len() ==> !is_found_span(#[trigger] record_lines(record)[i])
}

/// `message` stands as a text under `message` in what stands under `fields`.
pub open spec fn is_message(value: JsonView, message: Seq<char>) -> bool {
    member(value, "fields"@) matches Some(fields) && member(fields, "message"@) == Some(
        JsonView::Text(message),
    )
}

/// What counts as a span, as naming one and as the message of a log entry.
pub proof fn spans_have_both_identifiers(value: JsonView, text: Seq<char>)
    ensures
        is_span(value) <==> has_text(value, "TraceId"@) && has_text(value, "SpanId"@),
        names_span(text) <==> has_both_keys(text),
        is_span_text(text) <==> reads_as_span(text),
        message_of(value) == Some(text) <==> is_message(value, text),
        message_of(value) is None <==> forall|m: Seq<char>| !#[trigger] is_message(value, m),
{
    if let Some(m) = message_of(value) {
        assert(is_message(value, m));
    }
}

/// The lines that are kept are those that are spans.
proof fn lemma_filter(lines: Seq<Seq<char>>)
    ensures
        span_lines(lines) == lines.filter(|line: Seq<char>| is_found_span(line)),
    decreases lines.len(),
{
    reveal(Seq::filter);
    if lines.len() > 0 {
        lemma_filter(lines.drop_last());
    }
    assert(span_lines(lines) =~= lines.filter(|line: Seq<char>| is_found_span(line)));
}

/// Where no line is a span, no line is kept; where one is, at least one is kept.
proof fn lemma_some_line(lines: Seq<Seq<char>>)
    ensures
        span_lines(lines).len() == 0 <==> forall|i: int|
            0 <= i < lines.len() ==> !is_found_span(#[trigger] lines[i]),
    decreases lines.len(),
{
    if lines.len() > 0 {
        let before = lines.drop_last();
        lemma_some_line(before);
        assert(lines.last() == lines[lines.len() - 1]);
        if forall|i: int| 0 <= i < before.len() ==> !is_found_span(#[trigger] before[i]) {
            assert forall|i: int| 0 <= i < lines.len() - 1 implies !is_found_span(
                #[trigger] lines[i],
            ) by {
                assert(before[i] == lines[i]);
            }
        } else {
            let i = choose|i: int| 0 <= i < before.len() && is_found_span(#[trigger] before[i]);
            assert(lines[i] == before[i]);
        }
    }
}

/// A record of several lines, one of which is a span, gives all of its lines that
/// are spans, in their order, and nothing else.
pub proof fn lines_that_are_spans_are_selected(record: Seq<char>, i: int)
    requires
        fits(record),
        record.contains('\n'),
        0 <= i < record_lines(record).len(),
        is_found_span(record_lines(record)[i]),
    ensures
        spans_in(record) == record_lines(record).filter(|line: Seq<char>| is_found_span(line)),
{
    lemma_filter(record_lines(record));
    lemma_some_line(record_lines(record));
}

/// A record that is a span, and none of whose lines is one, gives itself.
pub proof fn whole_spans_are_selected(record: Seq<char>)
    requires
        fits(record),
        no_span_line(record),
        reads_as_span(record),
    ensures
        spans_in(record) == seq![record],
{
    lemma_some_line(record_lines(record));
}

/// A record that is no span, none of whose lines is one, and whose message is a
/// span gives that message, with or without line breaks in the record.
pub proof fn logged_spans_are_selected(record: Seq<char>, message: Seq<char>)
    requires
        fits(record),
        no_span_line(record),
        !reads_as_span(record),
        json_parsed(record) is Ok,
        is_message(json_parsed(record)->Ok_0, message),
        is_found_span(message),
    ensures
        spans_in(record) == seq![message],
{
    lemma_some_line(record_lines(record));
}

/// Any other record gives nothing: one that is too large, and one that is no
/// span and has neither a line nor a message that is one.
pub proof fn other_records_give_nothing(record: Seq<char>)
    requires
        !fits(record) || (no_span_line(record) && !reads_as_span(record) && (json_parsed(
            record,
        ) is Err || forall|message: Seq<char>| #[trigger]
            is_message(json_parsed(record)->Ok_0, message) ==> !is_found_span(message))),
    ensures
        spans_in(record).len() == 0,
{
    lemma_some_line(record_lines(record));
    if json_parsed(record) is Ok {
        if let Some(message) = message_of(json_parsed(record)->Ok_0) {
            assert(is_message(json_parsed(record)->Ok_0, message));
        }
    }
}

} // verus!
