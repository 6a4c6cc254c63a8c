//! JSON values: the library's own type and its mathematical model.
use crate::codec::JsonFloat;
use crate::text::byte_len;
use crate::text_map::{lemma_map_of_absent, lemma_map_of_last_entry, map_of};
use vstd::prelude::*;

verus! {

/// A JSON value.
///
/// Where an object names a key twice, the later entry counts.
#[derive(Debug, PartialEq)]
pub enum Json {
    Null,
    Bool(bool),
    Unsigned(u64),
    Signed(i64),
    Float(JsonFloat),
    Text(String),
    Array(Vec<Json>),
    Object(Vec<(String, Json)>),
}

/// The mathematical model of a JSON value.
pub enum JsonView {
    Null,
    Bool(bool),
    Int(int),
    Float(JsonFloat),
    Text(Seq<char>),
    Array(Seq<JsonView>),
    Object(Map<Seq<char>, JsonView>),
}

impl JsonView {
    /// What an object holds under `key`; nothing where this is no object.
    pub open spec fn get(self, key: Seq<char>) -> Option<JsonView> {
        match self {
            JsonView::Object(m) => if m.dom().contains(key) {
                Some(m[key])
            } else {
                None
            },
            _ => None,
        }
    }

    /// The text, where this is one.
    pub open spec fn as_text(self) -> Option<Seq<char>> {
        match self {
            JsonView::Text(s) => Some(s),
            _ => None,
        }
    }

    /// The members, where this is an array.
    pub open spec fn as_array(self) -> Option<Seq<JsonView>> {
        match self {
            JsonView::Array(items) => Some(items),
            _ => None,
        }
    }

    /// The number, where this is an integer that an `i64` can hold.
    pub open spec fn as_i64(self) -> Option<i64> {
        match self {
            JsonView::Int(n) => if i64::MIN <= n <= i64::MAX {
                Some(n as i64)
            } else {
                None
            },
            _ => None,
        }
    }

    /// The number, where this is an integer that a `u64` can hold.
    pub open spec fn as_u64(self) -> Option<u64> {
        match self {
            JsonView::Int(n) => if 0 <= n <= u64::MAX {
                Some(n as u64)
            } else {
                None
            },
            _ => None,
        }
    }

    /// The text under `key`, where there is one.
    pub open spec fn text_at(self, key: Seq<char>) -> Option<Seq<char>> {
        match self.get(key) {
            Some(value) => value.as_text(),
            None => None,
        }
    }

    /// The members of the array under `key`, where there is one.
    pub open spec fn array_at(self, key: Seq<char>) -> Option<Seq<JsonView>> {
        match self.get(key) {
            Some(value) => value.as_array(),
            None => None,
        }
    }

    /// What stands at the end of `path`, a key for each object on the way.
    pub open spec fn at(self, path: Seq<Seq<char>>) -> Option<JsonView>
        decreases path.len(),
    {
        if path.len() == 0 {
            Some(self)
        } else {
            match self.get(path.first()) {
                Some(value) => value.at(path.drop_first()),
                None => None,
            }
        }
    }

    /// No text at the end of a path is longer than `size` bytes.
    pub open spec fn texts_within(self, size: nat) -> bool {
        forall|path: Seq<Seq<char>>|
            (#[trigger] self.at(path)) matches Some(JsonView::Text(s)) ==> byte_len(s) <= size
    }
}

impl Json {
    /// The model of this value.
    pub open spec fn model(self) -> JsonView
        decreases self,
    {
        match self {
            Json::Null => JsonView::Null,
            Json::Bool(b) => JsonView::Bool(b),
            Json::Unsigned(n) => JsonView::Int(n as int),
            Json::Signed(n) => JsonView::Int(n as int),
            Json::Float(f) => JsonView::Float(f),
            Json::Text(s) => JsonView::Text(s@),
            Json::Array(items) => JsonView::Array(models(items@)),
            Json::Object(entries) => JsonView::Object(map_of(entry_models(entries@))),
        }
    }
}

impl View for Json {
    type V = JsonView;

    open spec fn view(&self) -> JsonView {
        self.model()
    }
}

/// The models of `items`, in order.
pub open spec fn models(items: Seq<Json>) -> Seq<JsonView>
    decreases items,
{
    if items.len() == 0 {
        Seq::empty()
    } else {
        models(items.drop_last()).push(items.last().model())
    }
}

/// The keys of `entries`, each with the model of its value, in order.
pub open spec fn entry_models(entries: Seq<(String, Json)>) -> Seq<(Seq<char>, JsonView)>
    decreases entries,
{
    if entries.len() == 0 {
        Seq::empty()
    } else {
        entry_models(entries.drop_last()).push((entries.last().0@, entries.last().1.model()))
    }
}

/// `models` takes each item to its model.
pub proof fn lemma_models(items: Seq<Json>)
    ensures
        models(items).len() == items.len(),
        forall|i: int| 0 <= i < items.len() ==> #[trigger] models(items)[i] == items[i]@,
    decreases items.len(),
{
    if items.len() > 0 {
        lemma_models(items.drop_last());
        assert forall|i: int| 0 <= i < items.len() implies #[trigger] models(items)[i]
            == items[i]@ by {
            if i < items.len() - 1 {
                assert(models(items)[i] == models(items.drop_last())[i]);
            }
        }
    }
}

/// `entry_models` takes each entry to its key and the model of its value.
pub proof fn lemma_entry_models(entries: Seq<(String, Json)>)
    ensures
        entry_models(entries).len() == entries.len(),
        forall|i: int|
            0 <= i < entries.len() ==> #[trigger] entry_models(entries)[i] == (
                entries[i].0@,
                entries[i].1@,
            ),
    decreases entries.len(),
{
    if entries.len() > 0 {
        lemma_entry_models(entries.drop_last());
        assert forall|i: int| 0 <= i < entries.len() implies #[trigger] entry_models(entries)[i]
            == (entries[i].0@, entries[i].1@) by {
            if i < entries.len() - 1 {
                assert(entry_models(entries)[i] == entry_models(entries.drop_last())[i]);
            }
        }
    }
}

impl Json {
    /// What an object holds under `key`; `None` where there is nothing or where
    /// this is no object.
    pub fn get(&self, key: &str) -> (r: Option<&Json>)
        ensures
            r is Some <==> self@.get(key@) is Some,
            r matches Some(value) ==> self@.get(key@) == Some(value@),
    {
        match self {
            Json::Object(entries) => {
                let wanted: String = key.to_owned();
                let mut i: usize = entries.len();
                proof {
                    lemma_entry_models(entries@);
                }
                while i > 0
                    invariant
                        i <= entries.len(),
                        entry_models(entries@).len() == entries@.len(),
                        forall|j: int|
                            0 <= j < entries@.len() ==> #[trigger] entry_models(entries@)[j] == (
                                entries@[j].0@,
                                entries@[j].1@,
                            ),
                        forall|j: int|
                            i <= j < entries@.len() ==> (#[trigger] entry_models(entries@)[j]).0
                                != key@,
                        wanted@ == key@,
                        *self == Json::Object(*entries),
                    decreases i,
                {
                    i = i - 1;
                    if entries[i].0 == wanted {
                        proof {
                            lemma_map_of_last_entry(entry_models(entries@), i as int);
                        }
                        return Some(&entries[i].1);
                    }
                }
                proof {
                    lemma_map_of_absent(entry_models(entries@), key@);
                }
                None
            },
            _ => None,
        }
    }

    /// The text, where this is one.
    pub fn as_str(&self) -> (r: Option<&str>)
        ensures
            r is Some <==> self@.as_text() is Some,
            r matches Some(s) ==> self@.as_text() == Some(s@),
    {
        match self {
            Json::Text(s) => Some(s.as_str()),
            _ => None,
        }
    }

    /// The members, where this is an array.
    pub fn as_array(&self) -> (r: Option<&Vec<Json>>)
        ensures
            r is Some <==> self@.as_array() is Some,
            r matches Some(items) ==> self@.as_array() == Some(models(items@)),
    {
        match self {
            Json::Array(items) => Some(items),
            _ => None,
        }
    }

    /// The number, where this is an integer that an `i64` can hold.
    pub fn as_i64(&self) -> (r: Option<i64>)
        ensures
            r == self@.as_i64(),
    {
        match self {
            Json::Unsigned(n) => if *n <= i64::MAX as u64 {
                Some(*n as i64)
            } else {
                None
            },
            Json::Signed(n) => Some(*n),
            _ => None,
        }
    }

    /// The number, where this is an integer that a `u64` can hold.
    pub fn as_u64(&self) -> (r: Option<u64>)
        ensures
            r == self@.as_u64(),
    {
        match self {
            Json::Unsigned(n) => Some(*n),
            Json::Signed(n) => if *n >= 0 {
                Some(*n as u64)
            } else {
                None
            },
            _ => None,
        }
    }

    /// The text under `key`, where there is one.
    pub fn text_at(&self, key: &str) -> (r: Option<&str>)
        ensures
            r is Some <==> self@.text_at(key@) is Some,
            r matches Some(s) ==> self@.text_at(key@) == Some(s@),
    {
        match self.get(key) {
            Some(value) => value.as_str(),
            None => None,
        }
    }

    /// The members of the array under `key`, where there is one.
    pub fn array_at(&self, key: &str) -> (r: Option<&Vec<Json>>)
        ensures
            r is Some <==> self@.array_at(key@) is Some,
            r matches Some(items) ==> self@.array_at(key@) == Some(models(items@)),
    {
        match self.get(key) {
            Some(value) => value.as_array(),
            None => None,
        }
    }
}

} // verus!
