//! Attributes: which texts a list of OTLP attributes gives, key by key.
use crate::attributes::{attribute_text, attributes_of};
use crate::codec::compact_text;
use crate::json::JsonView;
use crate::laws::member;
use vstd::prelude::*;

verus! {

/// `text` is the text of the attribute value `value`: what stands under
/// `stringValue`, else the JSON of what stands under `intValue`, else under
/// `doubleValue`, else under `boolValue`, else nothing.
pub open spec fn is_attribute_text(value: JsonView, text: Seq<char>) -> bool {
    match member(value, "stringValue"@) {
        Some(JsonView::Text(s)) => text == s,
        Some(_) => text.len() == 0,
        None => match member(value, "intValue"@) {
            Some(v) => text == compact_text(v),
            None => match member(value, "doubleValue"@) {
                Some(v) => text == compact_text(v),
                None => match member(value, "boolValue"@) {
                    Some(v) => text == compact_text(v),
                    None => text.len() == 0,
                },
            },
        },
    }
}

/// `item` is an attribute: it has a key and a value.
pub open spec fn is_attribute(item: JsonView) -> bool {
    member(item, "key"@) is Some && member(item, "value"@) is Some
}

/// The key of an attribute, empty where it is no text.
pub open spec fn key_of(item: JsonView) -> Seq<char> {
    match member(item, "key"@) {
        Some(JsonView::Text(s)) => s,
        _ => Seq::empty(),
    }
}

/// The item at `i` is an attribute whose key no later attribute repeats.
pub open spec fn counts(items: Seq<JsonView>, i: int) -> bool {
    &&& 0 <= i < items.len()
    &&& is_attribute(items[i])
    &&& forall|j: int|
        i < j < items.len() && is_attribute(#[trigger] items[j]) ==> key_of(items[j]) != key_of(
            items[i],
        )
}

/// `held` holds every attribute of `items` whose key no later one repeats, with
/// the text of its value, and nothing else.
pub open spec fn holds_attributes(items: Seq<JsonView>, held: Map<Seq<char>, Seq<char>>) -> bool {
    &&& forall|i: int| #[trigger]
        counts(items, i) ==> held.dom().contains(key_of(items[i])) && is_attribute_text(
            member(items[i], "value"@)->0,
            held[key_of(items[i])],
        )
    &&& forall|key: Seq<char>| #[trigger]
        held.dom().contains(key) ==> exists|i: int| #[trigger]
            counts(items, i) && key_of(items[i]) == key
}

/// The value of an attribute becomes the text of the first type that it has.
pub proof fn values_become_texts(value: JsonView)
    ensures
        is_attribute_text(value, attribute_text(value)),
{
}

/// Of a list of attributes each is held under its key with the text of its
/// value, unless a later one has the same key; nothing else is held.
pub proof fn attributes_are_held_by_key(items: Seq<JsonView>)
    ensures
        holds_attributes(items, attributes_of(items)),
    decreases items.len(),
{
    let held = attributes_of(items);
    if items.len() > 0 {
        let before = items.drop_last();
        let last = items.last();
        let end = items.len() - 1;
        let held_before = attributes_of(before);
        attributes_are_held_by_key(before);
        assert forall|i: int| #[trigger] counts(items, i) implies held.dom().contains(
            key_of(items[i]),
        ) && is_attribute_text(member(items[i], "value"@)->0, held[key_of(items[i])]) by {
            if i < end {
                assert(before[i] == items[i]);
                assert(counts(before, i));
                assert(is_attribute(items[end]) ==> key_of(items[end]) != key_of(items[i]));
            } else {
                values_become_texts(member(last, "value"@)->0);
            }
        }
        assert forall|key: Seq<char>| #[trigger] held.dom().contains(key) implies exists|i: int|
            #[trigger]
            counts(items, i) && key_of(items[i]) == key by {
            if is_attribute(last) && key_of(last) == key {
                assert(counts(items, end));
            } else {
                assert(held_before.dom().contains(key));
                let i = choose|i: int| #[trigger] counts(before, i) && key_of(before[i]) == key;
                assert(counts(items, i)) by {
                    assert forall|j: int|
                        i < j < items.len() && is_attribute(#[trigger] items[j]) implies key_of(
                        items[j],
                    ) != key_of(items[i]) by {
                        if j < end {
                            assert(before[j] == items[j]);
                        }
                    }
                }
            }
        }
    }
}

} // verus!
