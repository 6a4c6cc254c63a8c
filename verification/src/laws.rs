//! What holds of the library as a whole, said of the members of JSON values as
//! they stand, without the functions that read them.
use crate::json::JsonView;
use crate::text::u64_of;
use vstd::prelude::*;

pub mod attributes;
pub mod columns;
pub mod documents;
pub mod records;
pub mod replies;
pub mod rows;
pub mod spans;
pub mod times;
pub mod values;

verus! {

/// The member of an object under `key`.
pub open spec fn member(value: JsonView, key: Seq<char>) -> Option<JsonView> {
    match value {
        JsonView::Object(m) => if m.dom().contains(key) {
            Some(m[key])
        } else {
            None
        },
        _ => None,
    }
}

/// The text under `key`, empty where no text stands there.
pub open spec fn text_under(value: JsonView, key: Seq<char>) -> Seq<char> {
    match member(value, key) {
        Some(JsonView::Text(s)) => s,
        _ => Seq::empty(),
    }
}

/// The members of the array under `key`.
pub open spec fn list_under(value: JsonView, key: Seq<char>) -> Option<Seq<JsonView>> {
    match member(value, key) {
        Some(JsonView::Array(items)) => Some(items),
        _ => None,
    }
}

/// `nanos` stands under `key`, as an integer or as a text that writes it.
pub open spec fn is_time_under(value: JsonView, key: Seq<char>, nanos: u64) -> bool {
    ||| member(value, key) == Some(JsonView::Int(nanos as int))
    ||| member(value, key) matches Some(JsonView::Text(s)) && u64_of(s) == Some(nanos)
}

/// No time stands under `key`: neither an integer in the range of a `u64`, nor a
/// text that writes one.
pub open spec fn no_time_under(value: JsonView, key: Seq<char>) -> bool {
    forall|nanos: u64| !#[trigger] is_time_under(value, key, nanos)
}

} // verus!
