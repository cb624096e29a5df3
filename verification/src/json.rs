//! JSON documents as the wire protocol and the search backend carry them.
//!
//! A [`Json`] value is a plain tree. Its mathematical value is a [`JsonValue`],
//! and every contract in this crate that speaks of a document speaks of that
//! value. Reading text into a tree and writing a tree out as text is left to
//! `serde_json`; what it returns is named by [`json_parsed`] and
//! [`json_rendered`].

use crate::text::texts;
use vstd::prelude::*;

verus! {

/// `serde_json::Number`, a JSON number. Nothing is known of what is inside
/// one: a document carries it as it is.
#[verifier::external_type_specification]
#[verifier::external_body]
pub struct ExJsonNumber(serde_json::Number);

/// `serde_json::Value`, a JSON document as `serde_json` holds it. Nothing is
/// known of what is inside one.
#[verifier::external_type_specification]
#[verifier::external_body]
pub struct ExJsonTree(serde_json::Value);

/// A JSON document.
///
/// An object keeps its members in a list. Where a key occurs more than once
/// the last occurrence is the member, as it is once the document is written
/// out.
#[derive(Debug, PartialEq)]
pub enum Json {
    Null,
    Bool(bool),
    Number(serde_json::Number),
    Text(String),
    Array(Vec<Json>),
    Object(Vec<(String, Json)>),
}

/// The mathematical value of a [`Json`] document.
pub ghost enum JsonValue {
    Null,
    Bool(bool),
    Number(serde_json::Number),
    Text(Seq<char>),
    Array(Seq<JsonValue>),
    Object(Seq<(Seq<char>, JsonValue)>),
}

/// The value of a document: texts by their characters, lists by the values
/// of what they hold.
pub open spec fn value(doc: Json) -> JsonValue
    decreases doc,
{
    match doc {
        Json::Null => JsonValue::Null,
        Json::Bool(b) => JsonValue::Bool(b),
        Json::Number(n) => JsonValue::Number(n),
        Json::Text(s) => JsonValue::Text(s@),
        Json::Array(items) => JsonValue::Array(
            Seq::new(
                items@.len(),
                |i: int|
                    if 0 <= i < items@.len() {
                        value(items@[i])
                    } else {
                        JsonValue::Null
                    },
            ),
        ),
        Json::Object(members) => JsonValue::Object(
            Seq::new(
                members@.len(),
                |i: int|
                    if 0 <= i < members@.len() {
                        (members@[i].0@, value(members@[i].1))
                    } else {
                        (Seq::<char>::empty(), JsonValue::Null)
                    },
            ),
        ),
    }
}

impl View for Json {
    type V = JsonValue;

    open spec fn view(&self) -> JsonValue {
        value(*self)
    }
}

/// The values of a list of documents, in order.
pub open spec fn values_of(items: Seq<Json>) -> Seq<JsonValue> {
    Seq::new(items.len(), |i: int| items[i]@)
}

/// The keys and values of a list of members, in order.
pub open spec fn members_of(members: Seq<(String, Json)>) -> Seq<(Seq<char>, JsonValue)> {
    Seq::new(members.len(), |i: int| (members[i].0@, members[i].1@))
}

/// The text documents of a list of texts, in order.
pub open spec fn text_values(list: Seq<Seq<char>>) -> Seq<JsonValue> {
    Seq::new(list.len(), |i: int| JsonValue::Text(list[i]))
}

/// The value of an optional document.
pub open spec fn value_of(doc: Option<Json>) -> Option<JsonValue> {
    match doc {
        Some(d) => Some(d@),
        None => None,
    }
}

/// The value of an optional borrowed document.
pub open spec fn value_of_ref(doc: Option<&Json>) -> Option<JsonValue> {
    match doc {
        Some(d) => Some(d@),
        None => None,
    }
}

/// The member that `key` names among `members`: the last one with that key.
pub open spec fn lookup(members: Seq<(Seq<char>, JsonValue)>, key: Seq<char>) -> Option<JsonValue>
    decreases members.len(),
{
    if members.len() == 0 {
        None
    } else if members.last().0 == key {
        Some(members.last().1)
    } else {
        lookup(members.drop_last(), key)
    }
}

impl JsonValue {
    /// The member of an object that `key` names; `None` for anything else.
    pub open spec fn member(self, key: Seq<char>) -> Option<JsonValue> {
        match self {
            JsonValue::Object(members) => lookup(members, key),
            _ => None,
        }
    }

    /// The characters of a text; `None` for anything else.
    pub open spec fn text(self) -> Option<Seq<char>> {
        match self {
            JsonValue::Text(s) => Some(s),
            _ => None,
        }
    }

    /// The items of an array; `None` for anything else.
    pub open spec fn items(self) -> Option<Seq<JsonValue>> {
        match self {
            JsonValue::Array(items) => Some(items),
            _ => None,
        }
    }

    /// The text that the member `key` holds, if it is there and is a text.
    pub open spec fn text_at(self, key: Seq<char>) -> Option<Seq<char>> {
        match self.member(key) {
            Some(v) => v.text(),
            None => None,
        }
    }

    /// The text that the member `key` holds, or the empty text.
    pub open spec fn text_or_empty(self, key: Seq<char>) -> Seq<char> {
        match self.text_at(key) {
            Some(s) => s,
            None => Seq::empty(),
        }
    }

    /// An object with one more member at its end.
    pub open spec fn with(self, key: Seq<char>, value: JsonValue) -> JsonValue {
        match self {
            JsonValue::Object(members) => JsonValue::Object(members.push((key, value))),
            other => other,
        }
    }

    /// The object without members.
    pub open spec fn empty_object() -> JsonValue {
        JsonValue::Object(Seq::empty())
    }

    /// The array without items.
    pub open spec fn empty_array() -> JsonValue {
        JsonValue::Array(Seq::empty())
    }

    /// An array with one more item at its end.
    pub open spec fn append(self, item: JsonValue) -> JsonValue {
        match self {
            JsonValue::Array(items) => JsonValue::Array(items.push(item)),
            other => other,
        }
    }

    /// The items of the array that the member `key` holds; none where the
    /// member is missing or is no array.
    pub open spec fn items_at(self, key: Seq<char>) -> Seq<JsonValue> {
        match self.member(key) {
            Some(JsonValue::Array(items)) => items,
            _ => Seq::empty(),
        }
    }

    /// The first item of the array that the member `key` holds, where that
    /// is a text; the empty text otherwise.
    pub open spec fn first_text(self, key: Seq<char>) -> Seq<char> {
        let items = self.items_at(key);
        if items.len() > 0 {
            match items[0] {
                JsonValue::Text(s) => s,
                _ => Seq::empty(),
            }
        } else {
            Seq::empty()
        }
    }
}

/// The document that an optional document stands for: itself, or null where
/// there is none.
pub open spec fn or_null(doc: Option<JsonValue>) -> JsonValue {
    match doc {
        Some(d) => d,
        None => JsonValue::Null,
    }
}

/// The texts among `items`, in order.
pub open spec fn texts_among(items: Seq<JsonValue>) -> Seq<Seq<char>>
    decreases items.len(),
{
    if items.len() == 0 {
        Seq::empty()
    } else {
        match items.last() {
            JsonValue::Text(s) => texts_among(items.drop_last()).push(s),
            _ => texts_among(items.drop_last()),
        }
    }
}

/// The texts of `parts`, one after the other, with `separator` between each
/// two.
pub open spec fn separated(parts: Seq<Seq<char>>, separator: Seq<char>) -> Seq<char>
    decreases parts.len(),
{
    if parts.len() == 0 {
        Seq::empty()
    } else if parts.len() == 1 {
        parts[0]
    } else {
        separated(parts.drop_last(), separator) + separator + parts.last()
    }
}

/// What `serde_json` reads from `text`: the document, or `None` where the text
/// is not one JSON document.
pub uninterp spec fn json_parsed(text: Seq<char>) -> Option<JsonValue>;

/// The text that `serde_json` writes for a document.
pub uninterp spec fn json_rendered(doc: JsonValue) -> Seq<char>;

/// The JSON number that stands for the integer `n`.
pub uninterp spec fn json_number_of(n: u64) -> serde_json::Number;

/// The value of an array is the list of its items' values.
pub proof fn lemma_array_value(items: Vec<Json>)
    ensures
        Json::Array(items)@ == JsonValue::Array(values_of(items@)),
{
    assert(Json::Array(items)@->Array_0 =~= values_of(items@));
}

/// The value of an object is the list of its members' keys and values.
pub proof fn lemma_object_value(members: Vec<(String, Json)>)
    ensures
        Json::Object(members)@ == JsonValue::Object(members_of(members@)),
{
    assert(Json::Object(members)@->Object_0 =~= members_of(members@));
}

/// Turns a `serde_json::Value` into a document: each variant into the
/// variant of the same kind, a number as it is, the members of an object in
/// the order in which the `serde_json::Map` hands them out. Nothing is
/// claimed of the result.
#[verifier::external_body]
fn from_tree(tree: &serde_json::Value) -> Json {
    match tree {
        serde_json::Value::Null => Json::Null,
        serde_json::Value::Bool(b) => Json::Bool(*b),
        serde_json::Value::Number(n) => Json::Number(n.clone()),
        serde_json::Value::String(s) => Json::Text(s.clone()),
        serde_json::Value::Array(a) => Json::Array(a.iter().map(from_tree).collect()),
        serde_json::Value::Object(m) => Json::Object(
            m.iter().map(|(k, v)| (k.clone(), from_tree(v))).collect(),
        ),
    }
}

/// Turns a document into a `serde_json::Value`: each variant into the
/// variant of the same kind, a number as it is, the members of an object
/// collected into a `serde_json::Map`. Nothing is claimed of the result.
#[verifier::external_body]
fn to_tree(doc: &Json) -> serde_json::Value {
    match doc {
        Json::Null => serde_json::Value::Null,
        Json::Bool(b) => serde_json::Value::Bool(*b),
        Json::Number(n) => serde_json::Value::Number(n.clone()),
        Json::Text(s) => serde_json::Value::String(s.clone()),
        Json::Array(a) => serde_json::Value::Array(a.iter().map(to_tree).collect()),
        Json::Object(m) => serde_json::Value::Object(
            m.iter().map(|(k, v)| (k.clone(), to_tree(v))).collect(),
        ),
    }
}

/// Calls `serde_json::from_str` for a `serde_json::Value`. The contract names
/// the outcome and claims nothing else of it: the same text always reads as
/// the same document, or always fails.
#[verifier::external_body]
fn parse_document(text: &str) -> (r: Option<Json>)
    ensures
        value_of(r) == json_parsed(text@),
{
    serde_json::from_str::<serde_json::Value>(text).ok().map(|tree| from_tree(&tree))
}

/// Calls `serde_json::Value`'s `to_string`. The contract names the text and
/// claims nothing else of it: the same document is always written the same.
#[verifier::external_body]
fn render_document(doc: &Json) -> (r: String)
    ensures
        r@ == json_rendered(doc@),
{
    to_tree(doc).to_string()
}

/// Calls `serde_json::Number::from` on a `u64`, and names the number.
#[verifier::external_body]
fn number_from(n: u64) -> (r: serde_json::Number)
    ensures
        r == json_number_of(n),
{
    serde_json::Number::from(n)
}

/// `serde_json::Number`'s `clone` hands back an equal number.
pub assume_specification[ <serde_json::Number as Clone>::clone ](n: &serde_json::Number) -> (r:
    serde_json::Number)
    ensures
        r == *n,
;

impl Json {
    /// Reads one JSON document from `text`.
    pub fn from_text(text: &str) -> (r: Option<Json>)
        ensures
            value_of(r) == json_parsed(text@),
    {
        parse_document(text)
    }

    /// Writes the document as JSON text.
    pub fn to_text(&self) -> (r: String)
        ensures
            r@ == json_rendered(self@),
    {
        render_document(self)
    }

    /// The text document that holds the characters of `s`.
    pub fn text(s: &str) -> (r: Json)
        ensures
            r@ == JsonValue::Text(s@),
    {
        Json::Text(s.to_owned())
    }

    /// The number document for the integer `n`.
    pub fn unsigned(n: u64) -> (r: Json)
        ensures
            r@ == JsonValue::Number(json_number_of(n)),
    {
        Json::Number(number_from(n))
    }

    /// The array of `items`.
    pub fn array(items: Vec<Json>) -> (r: Json)
        ensures
            r@ == JsonValue::Array(values_of(items@)),
    {
        proof {
            lemma_array_value(items);
        }
        Json::Array(items)
    }

    /// The array of the text documents of `list`.
    pub fn texts(list: &Vec<String>) -> (r: Json)
        ensures
            r@ == JsonValue::Array(text_values(texts(list@))),
    {
        let mut items: Vec<Json> = Vec::new();
        let mut i: usize = 0;
        while i < list.len()
            invariant
                i <= list.len(),
                items.len() == i,
                forall|j: int| 0 <= j < i ==> (#[trigger] items@[j])@ == JsonValue::Text(list@[j]@),
            decreases list.len() - i,
        {
            items.push(Json::Text(list[i].clone()));
            i = i + 1;
        }
        proof {
            lemma_array_value(items);
            assert(values_of(items@) =~= text_values(texts(list@)));
        }
        Json::Array(items)
    }

    /// The array without items.
    pub fn list() -> (r: Json)
        ensures
            r@ == JsonValue::empty_array(),
    {
        let items: Vec<Json> = Vec::new();
        proof {
            lemma_array_value(items);
            assert(values_of(items@) =~= Seq::empty());
        }
        Json::Array(items)
    }

    /// Adds `item` at the end of an array. Anything but an array comes back
    /// as it was.
    pub fn append(self, item: Json) -> (r: Json)
        ensures
            r@ == self@.append(item@),
    {
        match self {
            Json::Array(items) => {
                let mut items = items;
                let ghost before = items;
                items.push(item);
                proof {
                    lemma_array_value(before);
                    lemma_array_value(items);
                    assert(values_of(items@) =~= values_of(before@).push(item@));
                }
                Json::Array(items)
            },
            other => other,
        }
    }

    /// The first item of the array that the member `key` of `source` holds,
    /// where that is a text; the empty text otherwise, and where there is no
    /// source.
    pub fn first_text(source: Option<&Json>, key: &str) -> (r: String)
        ensures
            r@ == or_null(value_of_ref(source)).first_text(key@),
    {
        match source {
            Some(doc) => match doc.member(key) {
                Some(held) => match held.as_array() {
                    Some(items) => {
                        if items.len() > 0 {
                            assert(values_of(items@)[0] == items@[0]@);
                            match items[0].as_text() {
                                Some(s) => s.clone(),
                                None => String::new(),
                            }
                        } else {
                            String::new()
                        }
                    },
                    None => String::new(),
                },
                None => String::new(),
            },
            None => String::new(),
        }
    }

    /// The texts among `items`, one after the other, with `separator`
    /// between each two.
    pub fn join_texts(items: &Vec<Json>, separator: &str) -> (r: String)
        ensures
            r@ == separated(texts_among(values_of(items@)), separator@),
    {
        let ghost all = values_of(items@);
        let mut out = String::new();
        let mut found = false;
        let mut i: usize = 0;
        assert(all.take(0) =~= Seq::empty());
        while i < items.len()
            invariant
                i <= items.len(),
                all == values_of(items@),
                found == (texts_among(all.take(i as int)).len() > 0),
                out@ == separated(texts_among(all.take(i as int)), separator@),
            decreases items.len() - i,
        {
            proof {
                assert(all.take(i + 1).drop_last() =~= all.take(i as int));
                assert(all.take(i + 1).last() == items@[i as int]@);
            }
            match items[i].as_text() {
                Some(s) => {
                    let ghost before = texts_among(all.take(i as int));
                    proof {
                        let after = texts_among(all.take(i + 1));
                        assert(after == before.push(s@));
                        assert(after.drop_last() =~= before);
                        assert(after.last() == s@);
                    }
                    if found {
                        out.append(separator);
                    } else {
                        assert(out@ =~= Seq::empty());
                    }
                    out.append(s.as_str());
                    assert(out@ =~= separated(texts_among(all.take(i + 1)), separator@));
                    found = true;
                },
                None => {},
            }
            i = i + 1;
        }
        assert(all.take(i as int) =~= all);
        out
    }

    /// The object without members.
    pub fn object() -> (r: Json)
        ensures
            r@ == JsonValue::empty_object(),
    {
        let members: Vec<(String, Json)> = Vec::new();
        proof {
            lemma_object_value(members);
            assert(members_of(members@) =~= Seq::empty());
        }
        Json::Object(members)
    }

    /// Adds the member `key` at the end of an object. Anything but an object
    /// comes back as it was.
    pub fn with(self, key: &str, value: Json) -> (r: Json)
        ensures
            r@ == self@.with(key@, value@),
    {
        match self {
            Json::Object(members) => {
                let mut members = members;
                let ghost before = members;
                members.push((key.to_owned(), value));
                proof {
                    lemma_object_value(before);
                    lemma_object_value(members);
                    assert(members_of(members@) =~= members_of(before@).push((key@, value@)));
                }
                Json::Object(members)
            },
            other => other,
        }
    }

    /// The member of an object that `key` names.
    pub fn member(&self, key: &str) -> (r: Option<&Json>)
        ensures
            value_of_ref(r) == self@.member(key@),
    {
        match self {
            Json::Object(members) => {
                proof {
                    lemma_object_value(*members);
                }
                let wanted = key.to_owned();
                let ghost all = members_of(members@);
                let mut i: usize = members.len();
                assert(all.take(i as int) =~= all);
                while i > 0
                    invariant
                        i <= members.len(),
                        wanted@ == key@,
                        all == members_of(members@),
                        self@ == JsonValue::Object(all),
                        lookup(all, key@) == lookup(all.take(i as int), key@),
                    decreases i,
                {
                    i = i - 1;
                    let ghost prefix = all.take(i + 1);
                    assert(prefix.last() == all[i as int]);
                    assert(prefix.drop_last() =~= all.take(i as int));
                    assert(all[i as int].0 == members@[i as int].0@);
                    assert(all[i as int].1 == members@[i as int].1@);
                    if members[i].0 == wanted {
                        return Some(&members[i].1);
                    }
                }
                assert(all.take(0).len() == 0);
                None
            },
            _ => None,
        }
    }

    /// The text that the document holds, if it is a text.
    pub fn as_text(&self) -> (r: Option<&String>)
        ensures
            match r {
                Some(s) => self@.text() == Some(s@),
                None => self@.text() is None,
            },
    {
        match self {
            Json::Text(s) => Some(s),
            _ => None,
        }
    }

    /// The items that the document holds, if it is an array.
    pub fn as_array(&self) -> (r: Option<&Vec<Json>>)
        ensures
            match r {
                Some(items) => self@.items() == Some(values_of(items@)),
                None => self@.items() is None,
            },
    {
        match self {
            Json::Array(items) => {
                proof {
                    lemma_array_value(*items);
                }
                Some(items)
            },
            _ => None,
        }
    }

    /// The text that the member `key` holds, if it is there and is a text.
    pub fn text_at(&self, key: &str) -> (r: Option<&String>)
        ensures
            match r {
                Some(s) => self@.text_at(key@) == Some(s@),
                None => self@.text_at(key@) is None,
            },
    {
        match self.member(key) {
            Some(v) => v.as_text(),
            None => None,
        }
    }

    /// The text that the member `key` holds, or the empty text where the
    /// member is missing or is no text.
    pub fn text_or_empty(&self, key: &str) -> (r: String)
        ensures
            r@ == self@.text_or_empty(key@),
    {
        match self.text_at(key) {
            Some(s) => s.clone(),
            None => String::new(),
        }
    }

    /// A copy of the document.
    pub fn duplicate(&self) -> (r: Json)
        ensures
            r@ == self@,
        decreases self,
    {
        match self {
            Json::Null => Json::Null,
            Json::Bool(b) => Json::Bool(*b),
            Json::Number(n) => Json::Number(n.clone()),
            Json::Text(s) => Json::Text(s.clone()),
            Json::Array(items) => {
                let mut copy: Vec<Json> = Vec::new();
                let mut i: usize = 0;
                while i < items.len()
                    invariant
                        i <= items.len(),
                        copy.len() == i,
                        self is Array,
                        self->Array_0 == *items,
                        forall|j: int| 0 <= j < i ==> (#[trigger] copy@[j])@ == items@[j]@,
                    decreases items.len() - i,
                {
                    let item = &items[i];
                    assert(decreases_to!(self => *item)) by {
                        assert(decreases_to!(self => self->Array_0));
                        assert(decreases_to!(self->Array_0 => self->Array_0@));
                        assert(decreases_to!(self->Array_0@ => self->Array_0@[i as int]));
                    }
                    copy.push(item.duplicate());
                    i = i + 1;
                }
                proof {
                    lemma_array_value(*items);
                    lemma_array_value(copy);
                    assert(values_of(copy@) =~= values_of(items@));
                }
                Json::Array(copy)
            },
            Json::Object(members) => {
                let mut copy: Vec<(String, Json)> = Vec::new();
                let mut i: usize = 0;
                while i < members.len()
                    invariant
                        i <= members.len(),
                        copy.len() == i,
                        self is Object,
                        self->Object_0 == *members,
                        forall|j: int|
                            0 <= j < i ==> (#[trigger] copy@[j]).0@ == members@[j].0@ && copy@[j].1@
                                == members@[j].1@,
                    decreases members.len() - i,
                {
                    let member = &members[i];
                    assert(decreases_to!(self => member.1)) by {
                        assert(decreases_to!(self => self->Object_0));
                        assert(decreases_to!(self->Object_0 => self->Object_0@));
                        assert(decreases_to!(self->Object_0@ => self->Object_0@[i as int]));
                        assert(decreases_to!(self->Object_0@[i as int] => self->Object_0@[i as int].1));
                    }
                    copy.push((member.0.clone(), member.1.duplicate()));
                    i = i + 1;
                }
                proof {
                    lemma_object_value(*members);
                    lemma_object_value(copy);
                    assert(members_of(copy@) =~= members_of(members@));
                }
                Json::Object(copy)
            },
        }
    }
}

} // verus!
