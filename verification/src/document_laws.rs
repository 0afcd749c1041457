//! What holds of JSON documents and of texts, whoever reads them.

use crate::encode::{compact_json, encodable, encoded, is_number_text};
use crate::json::{
    entry_of, lemma_array_view, lemma_entry_of, lemma_object_view, views, Json, JsonView,
};
use crate::text::{
    ascii_lowered, is_white_space, join, joined, law_trim_ignores_outer_white_space, texts, trimmed,
};
use vstd::prelude::*;

verus! {

/// An object has under a key the value of the last entry with this key, and nothing where no
/// entry has the key.
pub proof fn law_last_entry_counts(
    entries: Seq<(Seq<char>, JsonView)>,
    key: Seq<char>,
    value: JsonView,
)
    ensures
        JsonView::Object(entries).get(key) == Some(value) <==> exists|i: int|
            0 <= i < entries.len() && #[trigger] entries[i] == (key, value) && forall|later: int|
                i < later < entries.len() ==> (#[trigger] entries[later]).0 != key,
        JsonView::Object(entries).get(key) is None <==> forall|i: int|
            0 <= i < entries.len() ==> (#[trigger] entries[i]).0 != key,
    decreases entries.len(),
{
    if entries.len() > 0 {
        let last = entries.len() - 1;
        let head = entries.drop_last();
        law_last_entry_counts(head, key, value);
        if entries[last].0 == key {
            if entries[last].1 == value {
                assert(entries[last] == (key, value));
            }
        } else {
            if entry_of(head, key) == Some(value) {
                let i = choose|i: int|
                    0 <= i < head.len() && #[trigger] head[i] == (key, value) && forall|later: int|
                        i < later < head.len() ==> (#[trigger] head[later]).0 != key;
                assert(entries[i] == (key, value));
                assert forall|later: int| i < later < entries.len() implies (
                #[trigger] entries[later]).0 != key by {
                    if later < last {
                        assert(head[later].0 != key);
                    }
                }
            }
            if exists|i: int|
                0 <= i < entries.len() && #[trigger] entries[i] == (key, value) && forall|later: int|
                    i < later < entries.len() ==> (#[trigger] entries[later]).0 != key {
                let i = choose|i: int|
                    0 <= i < entries.len() && #[trigger] entries[i] == (key, value)
                        && forall|later: int|
                        i < later < entries.len() ==> (#[trigger] entries[later]).0 != key;
                lemma_entry_of(entries, i);
            }
            if entry_of(head, key) is None {
                assert forall|i: int| 0 <= i < entries.len() implies (#[trigger] entries[i]).0
                    != key by {
                    if i < last {
                        assert(head[i].0 != key);
                    }
                }
            }
            if forall|i: int| 0 <= i < entries.len() ==> (#[trigger] entries[i]).0 != key {
                assert forall|i: int| 0 <= i < head.len() implies (#[trigger] head[i]).0 != key by {
                    assert(entries[i].0 != key);
                }
            }
        }
    }
}

/// Only objects have values under keys.
pub proof fn law_only_objects_have_keys(doc: JsonView, key: Seq<char>)
    ensures
        doc.get(key) is Some ==> doc is Object,
{
}

/// A document is read as a text, a number or a list exactly where it is one, and as the one
/// that it is. The same holds of what it has under a key.
pub proof fn law_documents_are_read_as_what_they_are(
    doc: JsonView,
    key: Seq<char>,
    text: Seq<char>,
    number: u64,
    items: Seq<JsonView>,
)
    ensures
        doc.as_str() == Some(text) <==> doc == JsonView::Str(text),
        doc.as_u64() == Some(number) <==> doc == JsonView::Integer(number as int),
        doc.as_array() == Some(items) <==> doc == JsonView::Array(items),
        doc.str_at(key) == Some(text) <==> doc.get(key) == Some(JsonView::Str(text)),
        doc.array_at(key) == Some(items) <==> doc.get(key) == Some(JsonView::Array(items)),
{
}

/// A stored value says what it stores: numbers by their value, whichever way they are stored,
/// texts by their characters, lists and objects by what their items say, in order.
pub proof fn law_stored_values_say_what_they_store(
    flag: bool,
    unsigned: u64,
    signed: i64,
    text: String,
    items: Vec<Json>,
    entries: Vec<(String, Json)>,
)
    ensures
        Json::Null@ == JsonView::Null,
        Json::Bool(flag)@ == JsonView::Bool(flag),
        Json::Unsigned(unsigned)@ == JsonView::Integer(unsigned as int),
        Json::Signed(signed)@ == JsonView::Integer(signed as int),
        unsigned == signed ==> Json::Unsigned(unsigned)@ == Json::Signed(signed)@,
        Json::Decimal(text)@ == JsonView::Decimal(text@),
        Json::Str(text)@ == JsonView::Str(text@),
        Json::Array(items)@ matches JsonView::Array(docs) && docs.len() == items@.len() && docs
            == views(items@) && forall|i: int|
            0 <= i < docs.len() ==> #[trigger] docs[i] == items@[i]@,
        Json::Object(entries)@ matches JsonView::Object(docs) && docs.len() == entries@.len()
            && forall|i: int|
            0 <= i < docs.len() ==> (#[trigger] docs[i]).0 == entries@[i].0@ && docs[i].1
                == entries@[i].1@,
{
    lemma_array_view(items);
    lemma_object_view(entries);
}

/// A document can be written unless one of its numbers cannot: one that is given by a text
/// which `serde_json` does not read, or which has neither a decimal point nor an exponent. Lists
/// and objects can be written where all that they hold can, however much that is.
pub proof fn law_only_numbers_stop_writing(
    flag: bool,
    number: int,
    text: Seq<char>,
    items: Seq<JsonView>,
    entries: Seq<(Seq<char>, JsonView)>,
)
    ensures
        encodable(JsonView::Null),
        encodable(JsonView::Bool(flag)),
        encodable(JsonView::Integer(number)),
        encodable(JsonView::Str(text)),
        encodable(JsonView::Decimal(text)) <==> is_number_text(text) && exists|i: int|
            0 <= i < text.len() && (#[trigger] text[i] == '.' || text[i] == 'e' || text[i] == 'E'),
        encodable(JsonView::Array(items)) <==> forall|i: int|
            0 <= i < items.len() ==> encodable(#[trigger] items[i]),
        encodable(JsonView::Object(entries)) <==> forall|i: int|
            0 <= i < entries.len() ==> encodable((#[trigger] entries[i]).1),
{
    let list = JsonView::Array(items);
    let object = JsonView::Object(entries);
    if encodable(list) {
        assert forall|i: int| 0 <= i < items.len() implies encodable(#[trigger] items[i]) by {
            assert(encodable(list->Array_0[i]));
        }
    }
    if encodable(object) {
        assert forall|i: int| 0 <= i < entries.len() implies encodable(
            (#[trigger] entries[i]).1,
        ) by {
            assert(encodable(object->Object_0[i].1));
        }
    }
    if exists|i: int|
        0 <= i < text.len() && (#[trigger] text[i] == '.' || text[i] == 'e' || text[i] == 'E') {
        let i = choose|i: int|
            0 <= i < text.len() && (#[trigger] text[i] == '.' || text[i] == 'e' || text[i] == 'E');
        assert(text.contains(text[i]));
    }
}

/// What is written for a document is the text that `serde_json` writes for it, or nothing.
pub proof fn law_written_text_is_that_of_the_document(doc: JsonView)
    ensures
        encoded(doc) is Some <==> encodable(doc),
        encoded(doc) is Some ==> encoded(doc)->0 == compact_json(doc),
{
}

/// No parts make the empty text, one part is the text itself, and a further part follows after
/// the separator.
pub proof fn law_parts_are_joined_in_order(
    parts: Seq<Seq<char>>,
    part: Seq<char>,
    separator: Seq<char>,
)
    ensures
        joined(Seq::empty(), separator) == Seq::<char>::empty(),
        joined(seq![part], separator) == part,
        parts.len() > 0 ==> joined(parts.push(part), separator) == joined(parts, separator)
            + separator + part,
{
    assert(parts.push(part).drop_last() =~= parts);
}

/// `join` gives the characters of its parts, in their order, with the separator between each two.
pub proof fn law_join_puts_the_separator_between(
    parts: &Vec<String>,
    separator: &str,
    text: String,
)
    requires
        call_ensures(join, (parts, separator), text),
    ensures
        text@ == joined(parts@.map_values(|part: String| part@), separator@),
        parts@.len() == 0 ==> text@.len() == 0,
        parts@.len() == 1 ==> text@ == parts@[0]@,
        parts@.len() == 2 ==> text@ == parts@[0]@ + separator@ + parts@[1]@,
{
    let all = texts(parts@);
    assert(all =~= parts@.map_values(|part: String| part@));
    if parts@.len() == 2 {
        assert(all.drop_last().len() == 1);
        assert(joined(all.drop_last(), separator@) == all[0]);
    }
}

/// What strings say is what each of them says, in their order.
pub proof fn law_strings_say_their_characters(parts: Seq<String>)
    ensures
        texts(parts) == parts.map_values(|part: String| part@),
{
    assert(texts(parts) =~= parts.map_values(|part: String| part@));
}

/// White space are the 25 characters to which Unicode gives that property.
pub proof fn law_white_space_is_that_of_unicode(c: char)
    ensures
        is_white_space(c) <==> seq![
            0x9int, 0xA, 0xB, 0xC, 0xD, 0x20, 0x85, 0xA0, 0x1680, 0x2000, 0x2001, 0x2002, 0x2003,
            0x2004, 0x2005, 0x2006, 0x2007, 0x2008, 0x2009, 0x200A, 0x2028, 0x2029, 0x202F, 0x205F,
            0x3000,
        ].contains(c as int),
{
    let all = seq![
        0x9int, 0xA, 0xB, 0xC, 0xD, 0x20, 0x85, 0xA0, 0x1680, 0x2000, 0x2001, 0x2002, 0x2003,
        0x2004, 0x2005, 0x2006, 0x2007, 0x2008, 0x2009, 0x200A, 0x2028, 0x2029, 0x202F, 0x205F,
        0x3000,
    ];
    let code = c as int;
    if 0x9 <= code <= 0xD {
        assert(all[code - 0x9] == code);
    } else if 0x2000 <= code <= 0x200A {
        assert(all[code - 0x2000 + 9] == code);
    } else {
        assert(all[5] == 0x20 && all[6] == 0x85 && all[7] == 0xA0 && all[8] == 0x1680);
        assert(all[20] == 0x2028 && all[21] == 0x2029 && all[22] == 0x202F && all[23] == 0x205F
            && all[24] == 0x3000);
    }
}

/// A text that neither starts nor ends with white space is left as it is by trimming, and a text
/// of white space alone leaves nothing. So trimming takes away exactly the white space round a
/// text.
pub proof fn law_trim_takes_outer_white_space_alone(
    before: Seq<char>,
    text: Seq<char>,
    after: Seq<char>,
)
    requires
        forall|i: int| 0 <= i < before.len() ==> is_white_space(#[trigger] before[i]),
        forall|i: int| 0 <= i < after.len() ==> is_white_space(#[trigger] after[i]),
        text.len() > 0 ==> !is_white_space(text[0]) && !is_white_space(text[text.len() - 1]),
    ensures
        trimmed(before + text + after) == text,
{
    law_trim_ignores_outer_white_space(before, text, after);
}

/// Making letters small changes the capital letters of ASCII to the small ones, and no other
/// character.
pub proof fn law_lowering_changes_capital_letters_alone(text: Seq<char>, index: int)
    requires
        0 <= index < text.len(),
    ensures
        ascii_lowered(text).len() == text.len(),
        0x41 <= text[index] as int <= 0x5A ==> ascii_lowered(text)[index] as int
            == text[index] as int + 0x20,
        !(0x41 <= text[index] as int <= 0x5A) ==> ascii_lowered(text)[index] == text[index],
{
}

} // verus!
