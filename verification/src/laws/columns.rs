//! Events and links: what each of them puts into its columns.
use crate::json::JsonView;
use crate::laws::attributes::{attributes_are_held_by_key, holds_attributes};
use crate::laws::{is_time_under, list_under, member, no_time_under, text_under};
use crate::otlp::{
    event_timestamp, events_of, kept, lemma_kept_all, links_of, member_attributes, member_text,
    time_at,
};
use crate::timestamp::timestamp_text;
use vstd::prelude::*;

verus! {

/// What is given for one item alone.
proof fn lemma_kept_one<T>(item: JsonView, f: spec_fn(JsonView) -> Option<T>)
    ensures
        f(item) is Some ==> kept(seq![item], f) == seq![f(item)->0],
        f(item) is None ==> kept(seq![item], f) == Seq::<T>::empty(),
{
    reveal_with_fuel(kept, 2);
    assert(seq![item].drop_last() =~= Seq::empty());
    if f(item) is Some {
        assert(kept(seq![item], f) =~= seq![f(item)->0]);
    }
}

/// What a time reads as.
proof fn lemma_time(item: JsonView, key: Seq<char>, nanos: u64)
    ensures
        is_time_under(item, key, nanos) ==> time_at(item, key) == nanos,
        no_time_under(item, key) ==> time_at(item, key) == 0,
{
    if time_at(item, key) != 0 {
        assert(is_time_under(item, key, time_at(item, key)));
    }
}

/// One event gives its time, where it has one after the beginning of 1970, its
/// name, where it has one, and its attributes, where it has a list of them.
pub proof fn an_event_gives_what_it_has(event: JsonView, nanos: u64)
    ensures
        is_time_under(event, "timeUnixNano"@, nanos) && nanos > 0 ==> events_of(
            seq![event],
        ).timestamp == seq![timestamp_text(nanos)],
        is_time_under(event, "timeUnixNano"@, 0) || no_time_under(event, "timeUnixNano"@)
            ==> events_of(seq![event]).timestamp.len() == 0,
        member(event, "name"@) is Some ==> events_of(seq![event]).name == seq![
            text_under(event, "name"@),
        ],
        member(event, "name"@) is None ==> events_of(seq![event]).name.len() == 0,
        list_under(event, "attributes"@) matches Some(items) ==> events_of(
            seq![event],
        ).attributes.len() == 1 && holds_attributes(items, events_of(seq![event]).attributes[0]),
        list_under(event, "attributes"@) is None ==> events_of(seq![event]).attributes.len() == 0,
{
    lemma_time(event, "timeUnixNano"@, nanos);
    lemma_time(event, "timeUnixNano"@, 0);
    lemma_kept_one(event, |e: JsonView| event_timestamp(e));
    lemma_kept_one(event, |e: JsonView| member_text(e, "name"@));
    lemma_kept_one(event, |e: JsonView| member_attributes(e));
    if let Some(items) = list_under(event, "attributes"@) {
        attributes_are_held_by_key(items);
    }
}

/// Where every event has a time, the times stand in the order of the events.
pub proof fn events_keep_their_times(events: Seq<JsonView>, times: Seq<u64>)
    requires
        times.len() == events.len(),
        forall|i: int|
            0 <= i < events.len() ==> times[i] > 0 && is_time_under(
                #[trigger] events[i],
                "timeUnixNano"@,
                times[i],
            ),
    ensures
        events_of(events).timestamp.len() == events.len(),
        forall|i: int|
            0 <= i < events.len() ==> #[trigger] events_of(events).timestamp[i] == timestamp_text(
                times[i],
            ),
{
    let f = |e: JsonView| event_timestamp(e);
    assert forall|i: int| 0 <= i < events.len() implies (#[trigger] f(events[i])) == Some(
        timestamp_text(times[i]),
    ) by {
        lemma_time(events[i], "timeUnixNano"@, times[i]);
    }
    lemma_kept_all(events, f);
}

/// Where every event has a name, the names stand in the order of the events.
pub proof fn events_keep_their_names(events: Seq<JsonView>)
    requires
        forall|i: int| 0 <= i < events.len() ==> member(#[trigger] events[i], "name"@) is Some,
    ensures
        events_of(events).name.len() == events.len(),
        forall|i: int|
            0 <= i < events.len() ==> #[trigger] events_of(events).name[i] == text_under(
                events[i],
                "name"@,
            ),
{
    lemma_kept_all(events, |e: JsonView| member_text(e, "name"@));
}

/// Where every event has a list of attributes, the attributes stand in the order
/// of the events, each with all that its event's list holds.
pub proof fn events_keep_their_attributes(events: Seq<JsonView>)
    requires
        forall|i: int|
            0 <= i < events.len() ==> list_under(#[trigger] events[i], "attributes"@) is Some,
    ensures
        events_of(events).attributes.len() == events.len(),
        forall|i: int|
            0 <= i < events.len() ==> holds_attributes(
                list_under(events[i], "attributes"@)->0,
                #[trigger] events_of(events).attributes[i],
            ),
{
    lemma_kept_all(events, |e: JsonView| member_attributes(e));
    assert forall|i: int| 0 <= i < events.len() implies holds_attributes(
        list_under(events[i], "attributes"@)->0,
        #[trigger] events_of(events).attributes[i],
    ) by {
        attributes_are_held_by_key(list_under(events[i], "attributes"@)->0);
        assert(member_attributes(events[i]) == Some(events_of(events).attributes[i]));
    }
}

/// One link gives the identifiers and the trace state that it has, and its
/// attributes, where it has a list of them.
pub proof fn a_link_gives_what_it_has(link: JsonView)
    ensures
        member(link, "traceId"@) is Some ==> links_of(seq![link]).trace_id == seq![
            text_under(link, "traceId"@),
        ],
        member(link, "traceId"@) is None ==> links_of(seq![link]).trace_id.len() == 0,
        member(link, "spanId"@) is Some ==> links_of(seq![link]).span_id == seq![
            text_under(link, "spanId"@),
        ],
        member(link, "spanId"@) is None ==> links_of(seq![link]).span_id.len() == 0,
        member(link, "traceState"@) is Some ==> links_of(seq![link]).trace_state == seq![
            text_under(link, "traceState"@),
        ],
        member(link, "traceState"@) is None ==> links_of(seq![link]).trace_state.len() == 0,
        list_under(link, "attributes"@) matches Some(items) ==> links_of(
            seq![link],
        ).attributes.len() == 1 && holds_attributes(items, links_of(seq![link]).attributes[0]),
        list_under(link, "attributes"@) is None ==> links_of(seq![link]).attributes.len() == 0,
{
    lemma_kept_one(link, |l: JsonView| member_text(l, "traceId"@));
    lemma_kept_one(link, |l: JsonView| member_text(l, "spanId"@));
    lemma_kept_one(link, |l: JsonView| member_text(l, "traceState"@));
    lemma_kept_one(link, |l: JsonView| member_attributes(l));
    if let Some(items) = list_under(link, "attributes"@) {
        attributes_are_held_by_key(items);
    }
}

/// Where every link has both identifiers and a trace state, they stand in the
/// order of the links.
pub proof fn links_keep_their_texts(links: Seq<JsonView>)
    requires
        forall|i: int|
            0 <= i < links.len() ==> member(#[trigger] links[i], "traceId"@) is Some && member(
                links[i],
                "spanId"@,
            ) is Some && member(links[i], "traceState"@) is Some,
    ensures
        links_of(links).trace_id.len() == links.len(),
        links_of(links).span_id.len() == links.len(),
        links_of(links).trace_state.len() == links.len(),
        forall|i: int|
            #![trigger links[i]]
            0 <= i < links.len() ==> links_of(links).trace_id[i] == text_under(
                links[i],
                "traceId"@,
            ) && links_of(links).span_id[i] == text_under(links[i], "spanId"@) && links_of(
                links,
            ).trace_state[i] == text_under(links[i], "traceState"@),
{
    lemma_kept_all(links, |l: JsonView| member_text(l, "traceId"@));
    lemma_kept_all(links, |l: JsonView| member_text(l, "spanId"@));
    lemma_kept_all(links, |l: JsonView| member_text(l, "traceState"@));
}

/// Where every link has a list of attributes, the attributes stand in the order
/// of the links, each with all that its link's list holds.
pub proof fn links_keep_their_attributes(links: Seq<JsonView>)
    requires
        forall|i: int|
            0 <= i < links.len() ==> list_under(#[trigger] links[i], "attributes"@) is Some,
    ensures
        links_of(links).attributes.len() == links.len(),
        forall|i: int|
            0 <= i < links.len() ==> holds_attributes(
                list_under(links[i], "attributes"@)->0,
                #[trigger] links_of(links).attributes[i],
            ),
{
    lemma_kept_all(links, |l: JsonView| member_attributes(l));
    assert forall|i: int| 0 <= i < links.len() implies holds_attributes(
        list_under(links[i], "attributes"@)->0,
        #[trigger] links_of(links).attributes[i],
    ) by {
        attributes_are_held_by_key(list_under(links[i], "attributes"@)->0);
        assert(member_attributes(links[i]) == Some(links_of(links).attributes[i]));
    }
}

} // verus!
