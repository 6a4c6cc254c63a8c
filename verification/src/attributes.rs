//! Attributes: the key-value pairs that resources, spans, events and links
//! carry.
use crate::codec::compact_text;
use crate::json::{lemma_models, models, Json, JsonView};
use crate::text_map::TextMap;
use vstd::prelude::*;

verus! {

/// Attributes, each with its value as a text.
pub type Attributes = TextMap<String>;

/// What attributes hold.
pub open spec fn attributes_view(attributes: Attributes) -> Map<Seq<char>, Seq<char>> {
    attributes@.map_values(|v: String| v@)
}

/// The text, or the empty text where there is none.
pub open spec fn or_empty(text: Option<Seq<char>>) -> Seq<char> {
    match text {
        Some(s) => s,
        None => Seq::empty(),
    }
}

/// The value of an attribute as a text. A `stringValue` stands for itself; a
/// value of another type stands as JSON.
pub open spec fn attribute_text(value: JsonView) -> Seq<char> {
    if let Some(v) = value.get("stringValue"@) {
        or_empty(v.as_text())
    } else if let Some(v) = value.get("intValue"@) {
        compact_text(v)
    } else if let Some(v) = value.get("doubleValue"@) {
        compact_text(v)
    } else if let Some(v) = value.get("boolValue"@) {
        compact_text(v)
    } else {
        Seq::empty()
    }
}

/// The attributes in a list of OTLP attributes. What has no key or no value is
/// left out; of two under one key the later one counts.
pub open spec fn attributes_of(attributes: Seq<JsonView>) -> Map<Seq<char>, Seq<char>>
    decreases attributes.len(),
{
    if attributes.len() == 0 {
        Map::empty()
    } else {
        let before = attributes_of(attributes.drop_last());
        match (attributes.last().get("key"@), attributes.last().get("value"@)) {
            (Some(key), Some(value)) => before.insert(
                or_empty(key.as_text()),
                attribute_text(value),
            ),
            _ => before,
        }
    }
}

/// The text of a JSON value, or the empty text where it is none.
pub fn text_or_empty(value: &Json) -> (r: String)
    ensures
        r@ == or_empty(value@.as_text()),
{
    match value.as_str() {
        Some(s) => s.to_owned(),
        None => String::new(),
    }
}

/// The value of an attribute as a text.
pub fn attribute_value(value: &Json) -> (r: String)
    ensures
        r@ == attribute_text(value@),
{
    if let Some(v) = value.get("stringValue") {
        text_or_empty(v)
    } else if let Some(v) = value.get("intValue") {
        v.to_text()
    } else if let Some(v) = value.get("doubleValue") {
        v.to_text()
    } else if let Some(v) = value.get("boolValue") {
        v.to_text()
    } else {
        String::new()
    }
}

/// Converts OTLP attributes to a map from keys to texts.
pub fn convert_attributes(attributes: &[Json]) -> (r: Attributes)
    ensures
        attributes_view(r) == attributes_of(models(attributes@)),
{
    let ghost all = models(attributes@);
    let mut result: Attributes = TextMap::new();
    proof {
        lemma_models(attributes@);
        assert(attributes_view(result) =~= attributes_of(all.take(0)));
    }
    for i in 0..attributes.len()
        invariant
            all.len() == attributes@.len(),
            forall|j: int| 0 <= j < all.len() ==> #[trigger] all[j] == attributes@[j]@,
            attributes_view(result) == attributes_of(all.take(i as int)),
    {
        let attribute = &attributes[i];
        assert(all.take(i + 1).drop_last() == all.take(i as int));
        assert(all.take(i + 1).last() == attribute@);
        if let (Some(key), Some(value)) = (attribute.get("key"), attribute.get("value")) {
            let text = attribute_value(value);
            result.insert(text_or_empty(key), text);
            assert(attributes_view(result) =~= attributes_of(all.take(i + 1)));
        }
    }
    assert(all.take(all.len() as int) == all);
    result
}

/// The attributes of two lists, one after the other, are those of both, where
/// the second list counts under a key that both name.
pub proof fn attributes_of_both(first: Seq<JsonView>, second: Seq<JsonView>)
    ensures
        attributes_of(first + second) == attributes_of(first).union_prefer_right(
            attributes_of(second),
        ),
    decreases second.len(),
{
    if second.len() == 0 {
        assert(first + second =~= first);
    } else {
        assert((first + second).drop_last() =~= first + second.drop_last());
        attributes_of_both(first, second.drop_last());
    }
    assert(attributes_of(first + second) =~= attributes_of(first).union_prefer_right(
        attributes_of(second),
    ));
}

} // verus!
