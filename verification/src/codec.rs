//! The way between texts, `serde_json` values and the library's JSON values.
use crate::json::{entry_models, lemma_entry_models, lemma_models, models, Json, JsonView};
use crate::text::byte_len;
use crate::text_map::{
    distinct_keys, keyed, lemma_map_of_finite, lemma_map_of_last_entry, map_of, TextMap,
};
use vstd::prelude::*;

verus! {

/// A JSON number that is not an integer, kept as `serde_json` holds it.
///
/// A value of this type only ever comes out of a `serde_json::Value`.
#[derive(Debug, PartialEq)]
pub struct JsonFloat {
    number: serde_json::Number,
}

/// Declares `serde_json::Value`; nothing is said of it.
#[verifier::external_type_specification]
#[verifier::external_body]
pub struct ExValue(serde_json::Value);

/// Declares `serde_json::Number`; nothing is said of it.
#[verifier::external_type_specification]
#[verifier::external_body]
pub struct ExNumber(serde_json::Number);

/// Declares `serde_json::Error`; nothing is said of it.
#[verifier::external_type_specification]
#[verifier::external_body]
pub struct ExError(serde_json::Error);

/// What a `serde_json::Value` holds.
pub uninterp spec fn value_view(value: serde_json::Value) -> JsonView;

/// What `serde_json::from_str` reads out of a text, or the error with which it
/// fails.
pub uninterp spec fn json_parsed(text: Seq<char>) -> Result<JsonView, serde_json::Error>;

/// The compact text that `serde_json` writes for a value.
pub uninterp spec fn json_text(value: JsonView) -> Seq<char>;

/// A `serde_json::Value`, opened by one level.
enum Opened<'a> {
    Null,
    Bool(bool),
    Unsigned(u64),
    Signed(i64),
    Float(JsonFloat),
    Text(&'a String),
    Array(&'a Vec<serde_json::Value>),
    Object(Vec<(&'a String, &'a serde_json::Value)>),
}

/// What the members of an array hold.
spec fn member_views(items: Seq<serde_json::Value>) -> Seq<JsonView> {
    Seq::new(items.len(), |i: int| value_view(items[i]))
}

/// The keys of the entries of an opened object, each with what its value holds.
spec fn opened_entries(entries: Seq<(&String, &serde_json::Value)>) -> Seq<(Seq<char>, JsonView)> {
    Seq::new(entries.len(), |i: int| (entries[i].0@, value_view(*entries[i].1)))
}

impl<'a> Opened<'a> {
    /// What the opened value holds.
    spec fn view(self) -> JsonView {
        match self {
            Opened::Null => JsonView::Null,
            Opened::Bool(b) => JsonView::Bool(b),
            Opened::Unsigned(n) => JsonView::Int(n as int),
            Opened::Signed(n) => JsonView::Int(n as int),
            Opened::Float(f) => JsonView::Float(f),
            Opened::Text(s) => JsonView::Text(s@),
            Opened::Array(items) => JsonView::Array(member_views(items@)),
            Opened::Object(entries) => JsonView::Object(map_of(opened_entries(entries@))),
        }
    }
}

/// The parts of a `serde_json::Value` that is to be made.
enum Parts<'a> {
    Null,
    Bool(bool),
    Unsigned(u64),
    Signed(i64),
    Float(&'a JsonFloat),
    Text(&'a String),
    Array(Vec<serde_json::Value>),
    Object(Vec<(String, serde_json::Value)>),
}

/// The keys of `entries`, each with what its value holds.
pub open spec fn part_entries(entries: Seq<(String, serde_json::Value)>) -> Seq<
    (Seq<char>, JsonView),
> {
    Seq::new(entries.len(), |i: int| (entries[i].0@, value_view(entries[i].1)))
}

impl<'a> Parts<'a> {
    /// What a value made of these parts holds.
    spec fn view(self) -> JsonView {
        match self {
            Parts::Null => JsonView::Null,
            Parts::Bool(b) => JsonView::Bool(b),
            Parts::Unsigned(n) => JsonView::Int(n as int),
            Parts::Signed(n) => JsonView::Int(n as int),
            Parts::Float(f) => JsonView::Float(*f),
            Parts::Text(s) => JsonView::Text(s@),
            Parts::Array(items) => JsonView::Array(member_views(items@)),
            Parts::Object(entries) => JsonView::Object(map_of(part_entries(entries@))),
        }
    }
}

/// Calls `serde_json::from_str` for a `serde_json::Value`. What it reads, or the
/// error with which it fails, depends on the text alone and is named
/// `json_parsed`. A text in what it reads is a JSON string of the source with its
/// escapes resolved, each of which stands for fewer bytes than it takes.
#[verifier::external_body]
fn parse_value(text: &str) -> (r: Result<serde_json::Value, serde_json::Error>)
    ensures
        json_parsed(text@) == (match r {
            Ok(v) => Ok(value_view(v)),
            Err(e) => Err(e),
        }),
        r matches Ok(v) ==> value_view(v).texts_within(byte_len(text@)),
{
    serde_json::from_str(text)
}

/// Tells the variants of `serde_json::Value` apart, and the three kinds of
/// `serde_json::Number`, of which `as_u64` and `as_i64` name the integers. The
/// keys of a `serde_json::Map` all differ.
#[verifier::external_body]
fn open_value<'a>(value: &'a serde_json::Value) -> (r: Opened<'a>)
    ensures
        r@ == value_view(*value),
        r matches Opened::Object(entries) ==> distinct_keys(opened_entries(entries@)),
{
    match value {
        serde_json::Value::Null => Opened::Null,
        serde_json::Value::Bool(b) => Opened::Bool(*b),
        serde_json::Value::Number(n) => match (n.as_u64(), n.as_i64()) {
            (Some(u), _) => Opened::Unsigned(u),
            (None, Some(i)) => Opened::Signed(i),
            (None, None) => Opened::Float(JsonFloat { number: n.clone() }),
        },
        serde_json::Value::String(s) => Opened::Text(s),
        serde_json::Value::Array(items) => Opened::Array(items),
        serde_json::Value::Object(map) => Opened::Object(map.iter().collect()),
    }
}

/// Makes a `serde_json::Value` of its parts, one variant for one.
#[verifier::external_body]
fn close_value(parts: Parts<'_>) -> (r: serde_json::Value)
    requires
        parts matches Parts::Object(entries) ==> distinct_keys(part_entries(entries@)),
    ensures
        value_view(r) == parts@,
{
    match parts {
        Parts::Null => serde_json::Value::Null,
        Parts::Bool(b) => serde_json::Value::Bool(b),
        Parts::Unsigned(n) => serde_json::Value::from(n),
        Parts::Signed(n) => serde_json::Value::from(n),
        Parts::Float(f) => serde_json::Value::Number(f.number.clone()),
        Parts::Text(s) => serde_json::Value::String(s.clone()),
        Parts::Array(items) => serde_json::Value::Array(items),
        Parts::Object(entries) => serde_json::Value::Object(entries.into_iter().collect()),
    }
}

/// `text` needs no escape in a JSON string: it has no quote, no backslash and no
/// control character.
pub open spec fn is_verbatim(text: Seq<char>) -> bool {
    forall|i: int|
        0 <= i < text.len() ==> (#[trigger] text[i]) != '"' && text[i] != '\\' && text[i] >= ' '
}

/// A text that needs no escape, as a JSON string.
pub open spec fn quoted(text: Seq<char>) -> Seq<char> {
    seq!['"'] + text + seq!['"']
}

/// The decimal digits of `n`, without leading zeros.
pub open spec fn decimal_text(n: nat) -> Seq<char>
    decreases n,
{
    let digit = (('0' as nat + n % 10) as u32) as char;
    if n < 10 {
        seq![digit]
    } else {
        decimal_text(n / 10).push(digit)
    }
}

/// The JSON text of a value that takes a word to write: the null value, a
/// boolean, an integer, or a text that needs no escape.
pub open spec fn plain_text(value: JsonView) -> Option<Seq<char>> {
    match value {
        JsonView::Null => Some("null"@),
        JsonView::Bool(b) => Some(
            if b {
                "true"@
            } else {
                "false"@
            },
        ),
        JsonView::Int(n) => Some(
            if n < 0 {
                seq!['-'] + decimal_text((-n) as nat)
            } else {
                decimal_text(n as nat)
            },
        ),
        JsonView::Text(s) => if is_verbatim(s) {
            Some(quoted(s))
        } else {
            None
        },
        _ => None,
    }
}

/// A value as compact JSON text.
pub open spec fn compact_text(value: JsonView) -> Seq<char> {
    match plain_text(value) {
        Some(text) => text,
        None => json_text(value),
    }
}

/// `from_str` reads `value` out of `text`.
pub open spec fn reads_as(text: Seq<char>, value: JsonView) -> bool {
    match json_parsed(text) {
        Ok(read) => read == value,
        Err(_) => false,
    }
}

/// The entries of a compact JSON object, with commas between them.
pub open spec fn entries_text(entries: Seq<(Seq<char>, JsonView)>) -> Seq<char>
    decreases entries.len(),
{
    if entries.len() == 0 {
        Seq::empty()
    } else {
        let entry = quoted(entries.last().0) + seq![':'] + compact_text(entries.last().1);
        if entries.len() == 1 {
            entry
        } else {
            entries_text(entries.drop_last()) + seq![','] + entry
        }
    }
}

/// A compact JSON object with `entries` in their order, where no key needs an
/// escape.
pub open spec fn object_text(entries: Seq<(Seq<char>, JsonView)>) -> Seq<char> {
    seq!['{'] + entries_text(entries) + seq!['}']
}

/// An object in which every value is a text.
pub open spec fn is_text_object(value: JsonView) -> bool {
    match value {
        JsonView::Object(m) => forall|k: Seq<char>|
            m.dom().contains(k) ==> (#[trigger] m[k]) is Text,
        _ => false,
    }
}

/// A text, an integer, an object of texts, or an array of texts and objects of
/// texts.
pub open spec fn is_column_value(value: JsonView) -> bool {
    match value {
        JsonView::Text(_) => true,
        JsonView::Int(_) => true,
        JsonView::Object(_) => is_text_object(value),
        JsonView::Array(items) => forall|i: int|
            0 <= i < items.len() ==> (#[trigger] items[i]) is Text || is_text_object(items[i]),
        _ => false,
    }
}

/// No key needs an escape.
pub open spec fn verbatim_keys(entries: Seq<(Seq<char>, JsonView)>) -> bool {
    forall|i: int| 0 <= i < entries.len() ==> is_verbatim((#[trigger] entries[i]).0)
}

/// All values are column values.
pub open spec fn column_values(entries: Seq<(Seq<char>, JsonView)>) -> bool {
    forall|i: int| 0 <= i < entries.len() ==> is_column_value((#[trigger] entries[i]).1)
}

/// Calls `collect_map` of serde's `Serializer` for the compact serializer of
/// `serde_json`, which writes the entries as a JSON object in the order in which
/// they come, with nothing between its tokens, and each value as `to_string`
/// writes it. Writing strings and values to memory does not fail. A line break
/// comes out only as an escape. Where the values are integers, texts, and arrays
/// and objects of texts, `from_str` reads the entries back, of two under one key
/// the later one.
#[verifier::external_body]
pub(crate) fn write_object(
    entries: Vec<(String, serde_json::Value)>,
) -> (r: Result<String, serde_json::Error>)
    requires
        verbatim_keys(part_entries(entries@)),
    ensures
        r is Ok,
        r matches Ok(text) ==> text@ == object_text(part_entries(entries@)),
        r matches Ok(text) ==> !text@.contains('\n'),
        r matches Ok(text) ==> (column_values(part_entries(entries@)) ==> reads_as(
            text@,
            JsonView::Object(map_of(part_entries(entries@))),
        )),
{
    let mut text: Vec<u8> = Vec::new();
    let mut serializer = serde_json::Serializer::new(&mut text);
    serde::Serializer::collect_map(&mut serializer, entries)?;
    Ok(String::from_utf8_lossy(&text).into_owned())
}

/// Calls `to_string` of `serde_json::Value`, which writes the value as compact
/// JSON. The text depends on what the value holds alone and is named
/// `json_text`. The null value and booleans are written as words, integers in
/// decimal digits, and a text that needs no escape between quotes. A text, an
/// integer, an object of texts, and an array of texts and objects of texts are
/// read back by `from_str` as they were.
#[verifier::external_body]
fn value_text(value: &serde_json::Value) -> (r: String)
    ensures
        r@ == json_text(value_view(*value)),
        plain_text(value_view(*value)) matches Some(text) ==> r@ == text,
        is_column_value(value_view(*value)) ==> reads_as(r@, value_view(*value)),
{
    value.to_string()
}

/// Reads a JSON text.
pub fn parse_json(text: &str) -> (r: Result<Json, serde_json::Error>)
    ensures
        json_parsed(text@) == (match r {
            Ok(value) => Ok(value@),
            Err(e) => Err(e),
        }),
        r matches Ok(value) ==> value@.texts_within(byte_len(text@)),
{
    match parse_value(text) {
        Ok(value) => Ok(from_value(&value)),
        Err(e) => Err(e),
    }
}

/// What a `serde_json::Value` holds, as a value of the library.
pub fn from_value(value: &serde_json::Value) -> (r: Json)
    ensures
        r@ == value_view(*value),
    decreases value_view(*value),
{
    match open_value(value) {
        Opened::Null => Json::Null,
        Opened::Bool(b) => Json::Bool(b),
        Opened::Unsigned(n) => Json::Unsigned(n),
        Opened::Signed(n) => Json::Signed(n),
        Opened::Float(f) => Json::Float(f),
        Opened::Text(s) => Json::Text(s.clone()),
        Opened::Array(items) => {
            let mut out: Vec<Json> = Vec::new();
            for i in 0..items.len()
                invariant
                    value_view(*value) == JsonView::Array(member_views(items@)),
                    models(out@) == member_views(items@).take(i as int),
            {
                assert(decreases_to!(value_view(*value) => value_view(*value)->Array_0));
                assert(decreases_to!(member_views(items@) => member_views(items@)[i as int]));
                let ghost before = out@;
                out.push(from_value(&items[i]));
                assert(out@.drop_last() == before);
                assert(models(out@) =~= member_views(items@).take(i + 1));
            }
            assert(member_views(items@).take(items@.len() as int) == member_views(items@));
            Json::Array(out)
        },
        Opened::Object(entries) => {
            let ghost pairs = opened_entries(entries@);
            let mut out: Vec<(String, Json)> = Vec::new();
            for i in 0..entries.len()
                invariant
                    pairs == opened_entries(entries@),
                    distinct_keys(pairs),
                    value_view(*value) == JsonView::Object(map_of(pairs)),
                    entry_models(out@) == pairs.take(i as int),
            {
                proof {
                    lemma_map_of_finite(pairs);
                    lemma_map_of_last_entry(pairs, i as int);
                }
                assert(decreases_to!(value_view(*value) => value_view(*value)->Object_0));
                assert(decreases_to!(map_of(pairs) => map_of(pairs)[pairs[i as int].0]));
                let ghost before = out@;
                let entry = &entries[i];
                out.push((entry.0.clone(), from_value(entry.1)));
                assert(out@.drop_last() == before);
                assert(entry_models(out@) =~= pairs.take(i + 1));
            }
            assert(pairs.take(pairs.len() as int) == pairs);
            Json::Object(out)
        },
    }
}

/// The `serde_json::Value` that holds `value`.
pub fn to_value(value: &Json) -> (r: serde_json::Value)
    ensures
        value_view(r) == value@,
    decreases *value,
{
    match value {
        Json::Null => close_value(Parts::Null),
        Json::Bool(b) => close_value(Parts::Bool(*b)),
        Json::Unsigned(n) => close_value(Parts::Unsigned(*n)),
        Json::Signed(n) => close_value(Parts::Signed(*n)),
        Json::Float(f) => close_value(Parts::Float(f)),
        Json::Text(s) => close_value(Parts::Text(s)),
        Json::Array(items) => {
            proof {
                lemma_models(items@);
            }
            let mut out: Vec<serde_json::Value> = Vec::new();
            for i in 0..items.len()
                invariant
                    *value == Json::Array(*items),
                    models(items@).len() == items@.len(),
                    forall|j: int|
                        0 <= j < items@.len() ==> #[trigger] models(items@)[j] == items@[j]@,
                    member_views(out@) == models(items@).take(i as int),
            {
                assert(decreases_to!(*value => value->Array_0));
                assert(decreases_to!(*items => items@[i as int]));
                let ghost before = out@;
                out.push(to_value(&items[i]));
                assert(member_views(out@) =~= member_views(before).push(models(items@)[i as int]));
                assert(member_views(out@) =~= models(items@).take(i + 1));
            }
            assert(models(items@).take(items@.len() as int) == models(items@));
            close_value(Parts::Array(out))
        },
        Json::Object(entries) => {
            let ghost pairs = entry_models(entries@);
            proof {
                lemma_entry_models(entries@);
            }
            let mut out: TextMap<serde_json::Value> = TextMap::new();
            assert(out@.map_values(|v: serde_json::Value| value_view(v)) =~= map_of(pairs.take(0)));
            for i in 0..entries.len()
                invariant
                    *value == Json::Object(*entries),
                    pairs.len() == entries@.len(),
                    forall|j: int|
                        0 <= j < entries@.len() ==> #[trigger] pairs[j] == (
                            entries@[j].0@,
                            entries@[j].1@,
                        ),
                    out@.map_values(|v: serde_json::Value| value_view(v)) == map_of(
                        pairs.take(i as int),
                    ),
            {
                let entry = &entries[i];
                assert(decreases_to!(*value => value->Object_0));
                assert(decreases_to!(*entries => entries@));
                assert(decreases_to!(entries@ => entries@[i as int]));
                assert(decreases_to!(entries@[i as int] => entries@[i as int].1));
                let made = to_value(&entry.1);
                out.insert(entry.0.clone(), made);
                assert(pairs.take(i + 1).drop_last() == pairs.take(i as int));
                assert(out@.map_values(|v: serde_json::Value| value_view(v)) =~= map_of(
                    pairs.take(i + 1),
                ));
            }
            assert(pairs.take(pairs.len() as int) == pairs);
            let made = out.into_entries();
            proof {
                lemma_part_entries(made@);
            }
            close_value(Parts::Object(made))
        },
    }
}

/// What the values of a map hold is the map of what its values hold.
proof fn lemma_part_entries(entries: Seq<(String, serde_json::Value)>)
    ensures
        map_of(part_entries(entries)) == map_of(keyed(entries)).map_values(
            |v: serde_json::Value| value_view(v),
        ),
        distinct_keys(keyed(entries)) ==> distinct_keys(part_entries(entries)),
    decreases entries.len(),
{
    let held = |v: serde_json::Value| value_view(v);
    if entries.len() > 0 {
        lemma_part_entries(entries.drop_last());
        assert(keyed(entries).drop_last() =~= keyed(entries.drop_last()));
        assert(part_entries(entries).drop_last() =~= part_entries(entries.drop_last()));
    }
    assert(map_of(part_entries(entries)) =~= map_of(keyed(entries)).map_values(held));
    if distinct_keys(keyed(entries)) {
        assert forall|i: int, j: int|
            0 <= i < j < part_entries(entries).len() implies #[trigger] part_entries(entries)[i].0
            != #[trigger] part_entries(entries)[j].0 by {
            assert(keyed(entries)[i].0 != keyed(entries)[j].0);
        }
    }
}

impl Json {
    /// This value as compact JSON text.
    pub fn to_text(&self) -> (r: String)
        ensures
            r@ == compact_text(self@),
            is_column_value(self@) ==> reads_as(r@, self@),
    {
        value_text(&to_value(self))
    }
}

} // verus!
