//! Writing JSON documents out and reading them back, which `serde_json` does.

use crate::json::{Json, JsonView};
use serde_json::Value;
use vstd::prelude::*;
use vstd::utf8::encode_utf8;

verus! {

/// A `serde_json` value. What it holds is said by [`holds`].
#[verifier::external_type_specification]
#[verifier::external_body]
pub struct ExValue(serde_json::Value);

/// Whether `value` is the `serde_json` value of the document `doc`.
pub uninterp spec fn holds(value: serde_json::Value, doc: JsonView) -> bool;

/// Whether `serde_json` reads `text` as a number.
pub uninterp spec fn is_number_text(text: Seq<char>) -> bool;

/// The text that `serde_json` writes for the value of the document `doc`.
pub uninterp spec fn compact_json(doc: JsonView) -> Seq<char>;

/// Whether `serde_json` reads `bytes` as the value of the document `doc`.
pub uninterp spec fn reads_as(bytes: Seq<u8>, doc: JsonView) -> bool;

/// `serde_json::Value::Null`: the value of the document `null`.
#[verifier::external_body]
fn null_value() -> (value: Value)
    ensures
        holds(value, JsonView::Null),
{
    Value::Null
}

/// `serde_json::Value::Bool`: the value of a document that is a truth value.
#[verifier::external_body]
fn bool_value(flag: bool) -> (value: Value)
    ensures
        holds(value, JsonView::Bool(flag)),
{
    Value::Bool(flag)
}

/// `serde_json`'s `Value::from` of a `u64`: the value of a document that is this number.
#[verifier::external_body]
fn unsigned_value(number: u64) -> (value: Value)
    ensures
        holds(value, JsonView::Integer(number as int)),
{
    Value::from(number)
}

/// `serde_json`'s `Value::from` of an `i64`: the value of a document that is this number.
#[verifier::external_body]
fn signed_value(number: i64) -> (value: Value)
    ensures
        holds(value, JsonView::Integer(number as int)),
{
    Value::from(number)
}

/// `serde_json::Number`'s `from_str`: the value of a document that is the number with this
/// text, where `serde_json` reads one in the text. Which texts those are is not stated.
#[verifier::external_body]
fn decimal_value(text: &str) -> (value: Option<Value>)
    ensures
        value is Some <==> is_number_text(text@),
        value matches Some(number) ==> holds(number, JsonView::Decimal(text@)),
{
    text.parse::<serde_json::Number>().ok().map(Value::Number)
}

/// `serde_json::Value::String`: the value of a document that is a string.
#[verifier::external_body]
fn string_value(text: &str) -> (value: Value)
    ensures
        holds(value, JsonView::Str(text@)),
{
    Value::String(text.to_string())
}

/// Whether the values are those of the documents, one by one.
pub open spec fn all_hold(values: Seq<Value>, docs: Seq<JsonView>) -> bool {
    &&& values.len() == docs.len()
    &&& forall|i: int| 0 <= i < values.len() ==> holds(#[trigger] values[i], docs[i])
}

/// `serde_json::Value::Array`: the value of an array, from the values of its items.
#[verifier::external_body]
fn array_value(items: Vec<Value>) -> (value: Value)
    ensures
        forall|docs: Seq<JsonView>|
            all_hold(items@, docs) ==> #[trigger] holds(value, JsonView::Array(docs)),
{
    Value::Array(items)
}

/// Whether the keyed values are those of the entries, one by one.
pub open spec fn all_entries_hold(
    values: Seq<(String, Value)>,
    entries: Seq<(Seq<char>, JsonView)>,
) -> bool {
    &&& values.len() == entries.len()
    &&& forall|i: int|
        0 <= i < values.len() ==> (#[trigger] values[i]).0@ == entries[i].0 && holds(
            values[i].1,
            entries[i].1,
        )
}

/// `serde_json::Map`'s `from_iter`: the value of an object, from its entries in order. Of
/// several entries with one key the map keeps the last one's value, as the document does.
#[verifier::external_body]
fn object_value(entries: Vec<(String, Value)>) -> (value: Value)
    ensures
        forall|docs: Seq<(Seq<char>, JsonView)>|
            all_entries_hold(entries@, docs) ==> #[trigger] holds(value, JsonView::Object(docs)),
{
    Value::Object(entries.into_iter().collect())
}

/// How deep `serde_json` reads documents that are nested in each other.
pub const READ_DEPTH: u64 = 127;

/// Whether the document holds no more than `depth` arrays and objects inside each other.
pub open spec fn nested_within(doc: JsonView, depth: int) -> bool
    decreases doc,
{
    match doc {
        JsonView::Array(items) => depth > 0 && forall|i: int|
            0 <= i < items.len() ==> nested_within(#[trigger] items[i], depth - 1),
        JsonView::Object(entries) => depth > 0 && forall|i: int|
            0 <= i < entries.len() ==> nested_within((#[trigger] entries[i]).1, depth - 1),
        _ => true,
    }
}

/// Whether every number in the document is a whole one.
pub open spec fn is_float_free(doc: JsonView) -> bool
    decreases doc,
{
    match doc {
        JsonView::Decimal(_) => false,
        JsonView::Array(items) => forall|i: int|
            0 <= i < items.len() ==> is_float_free(#[trigger] items[i]),
        JsonView::Object(entries) => forall|i: int|
            0 <= i < entries.len() ==> is_float_free((#[trigger] entries[i]).1),
        _ => true,
    }
}

/// The key by which `serde_json` marks JSON text that it has not looked into. Its reader takes
/// an object with this key for such text.
pub open spec fn raw_value_key() -> Seq<char> {
    "$serde_json::private::RawValue"@
}

/// Whether no object in the document has the key that `serde_json` keeps to itself.
pub open spec fn has_plain_keys(doc: JsonView) -> bool
    decreases doc,
{
    match doc {
        JsonView::Array(items) => forall|i: int|
            0 <= i < items.len() ==> has_plain_keys(#[trigger] items[i]),
        JsonView::Object(entries) => forall|i: int|
            0 <= i < entries.len() ==> (#[trigger] entries[i]).0 != raw_value_key()
                && has_plain_keys(entries[i].1),
        _ => true,
    }
}

/// Whether what `serde_json` writes for the document can be read back: it has no floats, no
/// object with the key that `serde_json` keeps to itself, and is not nested too deep for the
/// reader.
pub open spec fn can_be_read_back(doc: JsonView) -> bool {
    is_float_free(doc) && has_plain_keys(doc) && nested_within(doc, READ_DEPTH as int)
}

/// `serde_json::to_string` on a value: the text that `serde_json` writes for its document. It
/// does not fail on a value: the keys of its objects are strings, its numbers are finite, and
/// the text goes to memory.
#[verifier::external_body]
fn value_text(value: &Value) -> (text: Option<String>)
    ensures
        text is Some,
        forall|doc: JsonView| #[trigger]
            holds(*value, doc) ==> text->0@ == compact_json(doc),
{
    serde_json::to_string(value).ok()
}

/// `serde_json::to_vec` on a value: the UTF-8 bytes of the text that `serde_json::to_string`
/// gives. `serde_json::from_slice` reads them back as the same value, unless this is nested
/// deeper than the reader goes or has the key that `serde_json` keeps to itself. Of floats
/// that is not stated.
#[verifier::external_body]
fn value_bytes(value: &Value) -> (bytes: Option<Vec<u8>>)
    ensures
        bytes is Some,
        forall|doc: JsonView| #[trigger]
            holds(*value, doc) ==> bytes->0@ == encode_utf8(compact_json(doc)),
        forall|doc: JsonView| #[trigger]
            holds(*value, doc) && can_be_read_back(doc) ==> reads_as(bytes->0@, doc),
{
    serde_json::to_vec(value).ok()
}

/// `serde_json::from_slice` into a value: the value that the bytes are the JSON text of, or
/// nothing where they are no such text or nested too deep. An object under the key that
/// `serde_json` keeps to itself is read as the text that it holds. Every value that is read is
/// that of some document. Which bytes can be read is not stated.
#[verifier::external_body]
fn read_value(bytes: &Vec<u8>) -> (value: Option<Value>)
    ensures
        forall|doc: JsonView| #[trigger]
            reads_as(bytes@, doc) <==> (value is Some && holds(value->0, doc)),
        value is Some ==> exists|doc: JsonView| holds(value->0, doc),
{
    serde_json::from_slice(bytes).ok()
}

/// Whether the text has a decimal point or an exponent. A whole number is not written so.
pub open spec fn is_decimal_text(text: Seq<char>) -> bool {
    text.contains('.') || text.contains('e') || text.contains('E')
}

/// Whether every number in the document is one that `serde_json` has, and those that are given
/// by their text are not whole.
pub open spec fn encodable(doc: JsonView) -> bool
    decreases doc,
{
    match doc {
        JsonView::Decimal(text) => is_decimal_text(text) && is_number_text(text),
        JsonView::Array(items) => forall|i: int|
            0 <= i < items.len() ==> encodable(#[trigger] items[i]),
        JsonView::Object(entries) => forall|i: int|
            0 <= i < entries.len() ==> encodable((#[trigger] entries[i]).1),
        _ => true,
    }
}

fn written_as_decimal(text: &str) -> (found: bool)
    ensures
        found == is_decimal_text(text@),
{
    for c in it: text.chars()
        invariant
            it.seq() == text@,
            it.index() <= text@.len(),
            forall|i: int|
                0 <= i < it.index() ==> (#[trigger] text@[i]) != '.' && text@[i] != 'e' && text@[i]
                    != 'E',
    {
        assert(c == text@[it.index() as int]);
        if c == '.' || c == 'e' || c == 'E' {
            return true;
        }
    }
    false
}

/// The `serde_json` value of a document.
fn to_value(json: &Json) -> (value: Option<Value>)
    ensures
        value is Some <==> encodable(json@),
        value matches Some(v) ==> holds(v, json@),
    decreases json,
{
    match json {
        Json::Null => Some(null_value()),
        Json::Bool(flag) => Some(bool_value(*flag)),
        Json::Unsigned(number) => Some(unsigned_value(*number)),
        Json::Signed(number) => Some(signed_value(*number)),
        Json::Decimal(text) => if written_as_decimal(text.as_str()) {
            decimal_value(text.as_str())
        } else {
            None
        },
        Json::Str(text) => Some(string_value(text.as_str())),
        Json::Array(items) => {
            let ghost docs = json@->Array_0;
            let mut values: Vec<Value> = Vec::new();
            let mut i: usize = 0;
            while i < items.len()
                invariant
                    i <= items.len(),
                    *json == Json::Array(*items),
                    docs == json@->Array_0,
                    docs.len() == items.len(),
                    values.len() == i,
                    forall|k: int| 0 <= k < i ==> encodable(#[trigger] docs[k]),
                    forall|k: int| 0 <= k < i ==> holds(#[trigger] values@[k], docs[k]),
                decreases items.len() - i,
            {
                assert(docs[i as int] == items@[i as int]@);
                match to_value(&items[i]) {
                    Some(value) => values.push(value),
                    None => return None,
                }
                i += 1;
            }
            assert(all_hold(values@, docs));
            Some(array_value(values))
        },
        Json::Object(entries) => {
            let ghost docs = json@->Object_0;
            let mut values: Vec<(String, Value)> = Vec::new();
            let mut i: usize = 0;
            while i < entries.len()
                invariant
                    i <= entries.len(),
                    *json == Json::Object(*entries),
                    docs == json@->Object_0,
                    docs.len() == entries.len(),
                    values.len() == i,
                    forall|k: int| 0 <= k < i ==> encodable((#[trigger] docs[k]).1),
                    forall|k: int|
                        0 <= k < i ==> (#[trigger] values@[k]).0@ == docs[k].0 && holds(
                            values@[k].1,
                            docs[k].1,
                        ),
                decreases entries.len() - i,
            {
                assert(docs[i as int] == (entries@[i as int].0@, entries@[i as int].1@));
                match to_value(&entries[i].1) {
                    Some(value) => values.push((entries[i].0.clone(), value)),
                    None => return None,
                }
                i += 1;
            }
            assert(all_entries_hold(values@, docs));
            Some(object_value(values))
        },
    }
}

/// The text of a document, where it can be written.
pub open spec fn encoded(doc: JsonView) -> Option<Seq<char>> {
    if encodable(doc) {
        Some(compact_json(doc))
    } else {
        None
    }
}

/// The text of a document, where it can be written.
pub fn to_text(json: &Json) -> (text: Option<String>)
    ensures
        text is Some <==> encodable(json@),
        text matches Some(t) ==> encoded(json@) == Some(t@),
{
    match to_value(json) {
        Some(value) => value_text(&value),
        None => None,
    }
}

/// The UTF-8 bytes of the text of a document, where it can be written. They read back as the
/// document.
pub fn to_bytes(json: &Json) -> (bytes: Option<Vec<u8>>)
    ensures
        bytes is Some <==> encodable(json@),
        bytes matches Some(b) ==> encoded(json@) is Some && b@ == encode_utf8(encoded(json@)->0),
        can_be_read_back(json@) ==> bytes is Some && reads_as(bytes->0@, json@),
{
    proof {
        if can_be_read_back(json@) {
            lemma_float_free_is_encodable(json@);
        }
    }
    match to_value(json) {
        Some(value) => value_bytes(&value),
        None => None,
    }
}

/// The compact text of the JSON document that the bytes hold; nothing where they hold none.
pub fn compacted(bytes: &Vec<u8>) -> (text: Option<String>)
    ensures
        text is Some <==> exists|doc: JsonView| reads_as(bytes@, doc),
        forall|doc: JsonView| #[trigger]
            reads_as(bytes@, doc) ==> text is Some && text->0@ == compact_json(doc),
{
    match read_value(bytes) {
        Some(value) => {
            proof {
                let doc = choose|doc: JsonView| holds(value, doc);
                assert(reads_as(bytes@, doc));
            }
            value_text(&value)
        },
        None => None,
    }
}

/// A document without floats can be written.
pub proof fn lemma_float_free_is_encodable(doc: JsonView)
    requires
        is_float_free(doc),
    ensures
        encodable(doc),
    decreases doc,
{
    match doc {
        JsonView::Array(items) => {
            assert forall|i: int| 0 <= i < items.len() implies encodable(#[trigger] items[i]) by {
                lemma_float_free_is_encodable(items[i]);
            }
        },
        JsonView::Object(entries) => {
            assert forall|i: int| 0 <= i < entries.len() implies encodable(
                (#[trigger] entries[i]).1,
            ) by {
                lemma_float_free_is_encodable(entries[i].1);
            }
        },
        _ => {},
    }
}

} // verus!
