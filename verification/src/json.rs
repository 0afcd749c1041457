//! JSON documents as the request logic reads them.

use vstd::prelude::*;

verus! {

/// What a JSON document says, without regard to how it is stored.
///
/// An object is its entries in the order in which they were written; of several entries
/// with one key, the last one counts (see [`entry_of`]).
pub enum JsonView {
    Null,
    Bool(bool),
    Integer(int),
    Decimal(Seq<char>),
    Str(Seq<char>),
    Array(Seq<JsonView>),
    Object(Seq<(Seq<char>, JsonView)>),
}

/// The value that an object with these entries has under `key`: that of the last entry
/// with this key.
pub open spec fn entry_of(entries: Seq<(Seq<char>, JsonView)>, key: Seq<char>) -> Option<JsonView>
    decreases entries.len(),
{
    if entries.len() == 0 {
        None
    } else if entries.last().0 == key {
        Some(entries.last().1)
    } else {
        entry_of(entries.drop_last(), key)
    }
}

/// An entry that no later one replaces gives the object its value under the key.
pub proof fn lemma_entry_of(entries: Seq<(Seq<char>, JsonView)>, index: int)
    requires
        0 <= index < entries.len(),
        forall|later: int|
            index < later < entries.len() ==> (#[trigger] entries[later]).0 != entries[index].0,
    ensures
        entry_of(entries, entries[index].0) == Some(entries[index].1),
    decreases entries.len(),
{
    if index < entries.len() - 1 {
        assert(entries.last().0 != entries[index].0);
        lemma_entry_of(entries.drop_last(), index);
    }
}

impl JsonView {
    /// The value under `key`; nothing where this is not an object, or lacks the key.
    pub open spec fn get(self, key: Seq<char>) -> Option<JsonView> {
        match self {
            JsonView::Object(entries) => entry_of(entries, key),
            _ => None,
        }
    }

    /// The text of a string.
    pub open spec fn as_str(self) -> Option<Seq<char>> {
        match self {
            JsonView::Str(text) => Some(text),
            _ => None,
        }
    }

    /// The number, where it is a whole one that fits in 64 bits without a sign.
    pub open spec fn as_u64(self) -> Option<u64> {
        match self {
            JsonView::Integer(n) => if 0 <= n <= u64::MAX {
                Some(n as u64)
            } else {
                None
            },
            _ => None,
        }
    }

    /// The items of an array.
    pub open spec fn as_array(self) -> Option<Seq<JsonView>> {
        match self {
            JsonView::Array(items) => Some(items),
            _ => None,
        }
    }

    /// The text under `key`, where there is a string.
    pub open spec fn str_at(self, key: Seq<char>) -> Option<Seq<char>> {
        match self.get(key) {
            Some(value) => value.as_str(),
            None => None,
        }
    }

    /// The items under `key`, where there is an array.
    pub open spec fn array_at(self, key: Seq<char>) -> Option<Seq<JsonView>> {
        match self.get(key) {
            Some(value) => value.as_array(),
            None => None,
        }
    }
}

/// A JSON document.
#[derive(Debug, PartialEq)]
pub enum Json {
    Null,
    Bool(bool),
    /// A whole number that is not negative.
    Unsigned(u64),
    /// A whole number, by which negative ones are written.
    Signed(i64),
    /// Any other number, by its text, which has a decimal point or an exponent: `"0.5"`,
    /// `"1e30"`. A document with another text here cannot be written.
    Decimal(String),
    Str(String),
    Array(Vec<Json>),
    /// The entries in order; a later entry replaces an earlier one with the same key.
    Object(Vec<(String, Json)>),
}

impl Json {
    /// The document that this value stores.
    pub open spec fn document(self) -> JsonView
        decreases self,
    {
        match self {
            Json::Null => JsonView::Null,
            Json::Bool(b) => JsonView::Bool(b),
            Json::Unsigned(n) => JsonView::Integer(n as int),
            Json::Signed(n) => JsonView::Integer(n as int),
            Json::Decimal(text) => JsonView::Decimal(text@),
            Json::Str(text) => JsonView::Str(text@),
            Json::Array(items) => JsonView::Array(
                Seq::new(
                    items@.len(),
                    |i: int|
                        if 0 <= i < items@.len() {
                            items@[i].document()
                        } else {
                            JsonView::Null
                        },
                ),
            ),
            Json::Object(entries) => JsonView::Object(
                Seq::new(
                    entries@.len(),
                    |i: int|
                        if 0 <= i < entries@.len() {
                            (entries@[i].0@, entries@[i].1.document())
                        } else {
                            (Seq::empty(), JsonView::Null)
                        },
                ),
            ),
        }
    }
}

impl Json {
    /// The value under `key`; nothing where this is not an object, or lacks the key.
    pub fn get(&self, key: &str) -> (value: Option<&Json>)
        ensures
            value is Some <==> self@.get(key@) is Some,
            value matches Some(json) ==> self@.get(key@) == Some(json@),
    {
        match self {
            Json::Object(entries) => {
                let ghost all = self@->Object_0;
                let wanted = key.to_owned();
                let mut left: usize = entries.len();
                assert(all.take(left as int) =~= all);
                while left > 0
                    invariant
                        left <= entries.len(),
                        wanted@ == key@,
                        *self == Json::Object(*entries),
                        all == self@->Object_0,
                        self@.get(key@) == entry_of(all.take(left as int), key@),
                    decreases left,
                {
                    let at: usize = left - 1;
                    assert(all.take(left as int).last() == (
                        entries@[at as int].0@,
                        entries@[at as int].1@,
                    ));
                    assert(all.take(left as int).drop_last() =~= all.take(at as int));
                    if entries[at].0 == wanted {
                        return Some(&entries[at].1);
                    }
                    left = at;
                }
                None
            },
            _ => None,
        }
    }

    /// The text of a string.
    pub fn as_str(&self) -> (text: Option<&str>)
        ensures
            text is Some <==> self@.as_str() is Some,
            text matches Some(s) ==> self@.as_str() == Some(s@),
    {
        match self {
            Json::Str(text) => Some(text.as_str()),
            _ => None,
        }
    }

    /// The number, where it is a whole one that fits in 64 bits without a sign.
    pub fn as_u64(&self) -> (number: Option<u64>)
        ensures
            number == self@.as_u64(),
    {
        match self {
            Json::Unsigned(n) => Some(*n),
            Json::Signed(n) => if *n >= 0 {
                Some(*n as u64)
            } else {
                None
            },
            _ => None,
        }
    }

    /// The items of an array.
    pub fn as_array(&self) -> (items: Option<&Vec<Json>>)
        ensures
            items is Some <==> self@.as_array() is Some,
            items matches Some(list) ==> *self == Json::Array(*list) && self@.as_array() == Some(
                views(list@),
            ),
    {
        match self {
            Json::Array(items) => {
                assert(self@->Array_0 =~= views(items@));
                Some(items)
            },
            _ => None,
        }
    }

    /// The text under `key`, where there is a string.
    pub fn str_at(&self, key: &str) -> (text: Option<&str>)
        ensures
            text is Some <==> self@.str_at(key@) is Some,
            text matches Some(s) ==> self@.str_at(key@) == Some(s@),
    {
        match self.get(key) {
            Some(value) => value.as_str(),
            None => None,
        }
    }

    /// The items under `key`, where there is an array.
    pub fn array_at(&self, key: &str) -> (items: Option<&Vec<Json>>)
        ensures
            items is Some <==> self@.array_at(key@) is Some,
            items matches Some(list) ==> self@.array_at(key@) == Some(views(list@)),
    {
        match self.get(key) {
            Some(value) => value.as_array(),
            None => None,
        }
    }
}

/// The entries that these keyed values store.
pub open spec fn entry_views(entries: Seq<(String, Json)>) -> Seq<(Seq<char>, JsonView)> {
    Seq::new(entries.len(), |i: int| (entries[i].0@, entries[i].1@))
}

/// An array says what its items say.
pub proof fn lemma_array_view(items: Vec<Json>)
    ensures
        Json::Array(items)@ == JsonView::Array(views(items@)),
{
    assert(Json::Array(items)@->Array_0 =~= views(items@));
}

/// An object says what its entries say.
pub proof fn lemma_object_view(entries: Vec<(String, Json)>)
    ensures
        Json::Object(entries)@ == JsonView::Object(entry_views(entries@)),
{
    assert(Json::Object(entries)@->Object_0 =~= entry_views(entries@));
}

/// The documents that these values store.
pub open spec fn views(items: Seq<Json>) -> Seq<JsonView> {
    Seq::new(items.len(), |i: int| items[i]@)
}

impl View for Json {
    type V = JsonView;

    open spec fn view(&self) -> JsonView {
        self.document()
    }
}

} // verus!
