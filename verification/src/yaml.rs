//! YAML documents as the shipper's configuration is kept in.
//!
//! A [`Yaml`] value is a plain tree, and its mathematical value is a
//! [`YamlValue`]. Reading text into a tree and writing a tree out as text is
//! left to `serde_yaml`; what it returns is named by [`yaml_parsed`] and
//! [`yaml_rendered`].

use crate::text::texts;
use vstd::prelude::*;

verus! {

/// `serde_yaml::Number`, a YAML number. Nothing is known of what is inside
/// one: a document carries it as it is.
#[verifier::external_type_specification]
#[verifier::external_body]
pub struct ExYamlNumber(serde_yaml::Number);

/// `serde_yaml::value::Tag`, the tag of a tagged YAML value. Nothing is
/// known of what is inside one: a document carries it as it is.
#[verifier::external_type_specification]
#[verifier::external_body]
pub struct ExYamlTag(serde_yaml::value::Tag);

/// `serde_yaml::Value`, a YAML document as `serde_yaml` holds it. Nothing is
/// known of what is inside one.
#[verifier::external_type_specification]
#[verifier::external_body]
pub struct ExYamlTree(serde_yaml::Value);

/// A YAML document.
///
/// A mapping keeps its members in a list, in the order of the document.
#[derive(Debug, PartialEq)]
pub enum Yaml {
    Null,
    Bool(bool),
    Number(serde_yaml::Number),
    Text(String),
    Sequence(Vec<Yaml>),
    Mapping(Vec<(Yaml, Yaml)>),
    Tagged(serde_yaml::value::Tag, Box<Yaml>),
}

/// The mathematical value of a [`Yaml`] document.
pub ghost enum YamlValue {
    Null,
    Bool(bool),
    Number(serde_yaml::Number),
    Text(Seq<char>),
    Sequence(Seq<YamlValue>),
    Mapping(Seq<(YamlValue, YamlValue)>),
    Tagged(serde_yaml::value::Tag, Box<YamlValue>),
}

/// The value of a document: texts by their characters, lists by the values
/// of what they hold.
pub open spec fn value(doc: Yaml) -> YamlValue
    decreases doc,
{
    match doc {
        Yaml::Null => YamlValue::Null,
        Yaml::Bool(b) => YamlValue::Bool(b),
        Yaml::Number(n) => YamlValue::Number(n),
        Yaml::Text(s) => YamlValue::Text(s@),
        Yaml::Sequence(items) => YamlValue::Sequence(
            Seq::new(
                items@.len(),
                |i: int|
                    if 0 <= i < items@.len() {
                        value(items@[i])
                    } else {
                        YamlValue::Null
                    },
            ),
        ),
        Yaml::Mapping(members) => YamlValue::Mapping(
            Seq::new(
                members@.len(),
                |i: int|
                    if 0 <= i < members@.len() {
                        (value(members@[i].0), value(members@[i].1))
                    } else {
                        (YamlValue::Null, YamlValue::Null)
                    },
            ),
        ),
        Yaml::Tagged(tag, inner) => YamlValue::Tagged(tag, Box::new(value(*inner))),
    }
}

impl View for Yaml {
    type V = YamlValue;

    open spec fn view(&self) -> YamlValue {
        value(*self)
    }
}

/// The values of a list of documents, in order.
pub open spec fn values_of(items: Seq<Yaml>) -> Seq<YamlValue> {
    Seq::new(items.len(), |i: int| items[i]@)
}

/// The values of the keys and of what they stand for, of a list of members,
/// in order.
pub open spec fn members_of(members: Seq<(Yaml, Yaml)>) -> Seq<(YamlValue, YamlValue)> {
    Seq::new(members.len(), |i: int| (members[i].0@, members[i].1@))
}

/// The text documents of a list of texts, in order.
pub open spec fn text_values(list: Seq<Seq<char>>) -> Seq<YamlValue> {
    Seq::new(list.len(), |i: int| YamlValue::Text(list[i]))
}

/// The value of an optional document.
pub open spec fn value_of(doc: Option<Yaml>) -> Option<YamlValue> {
    match doc {
        Some(d) => Some(d@),
        None => None,
    }
}

/// The value of an optional borrowed document.
pub open spec fn value_of_ref(doc: Option<&Yaml>) -> Option<YamlValue> {
    match doc {
        Some(d) => Some(d@),
        None => None,
    }
}

/// The index of the first member whose key is the text `key`, or the number
/// of members where there is none.
pub open spec fn key_position(members: Seq<(YamlValue, YamlValue)>, key: Seq<char>) -> int
    decreases members.len(),
{
    if members.len() == 0 {
        0
    } else if members[0].0 == YamlValue::Text(key) {
        0
    } else {
        1 + key_position(members.drop_first(), key)
    }
}

/// `members` with `value` for the member `key`, where there is one;
/// `members` as they are where there is none.
pub open spec fn replaced(
    members: Seq<(YamlValue, YamlValue)>,
    key: Seq<char>,
    value: YamlValue,
) -> Seq<(YamlValue, YamlValue)> {
    let at = key_position(members, key);
    if at < members.len() {
        members.update(at, (members[at].0, value))
    } else {
        members
    }
}

impl YamlValue {
    /// What the member `key` of a mapping holds, looking through tags;
    /// `None` where the document is no mapping or has no such member.
    pub open spec fn member(self, key: Seq<char>) -> Option<YamlValue>
        decreases self,
    {
        match self {
            YamlValue::Tagged(_, inner) => inner.member(key),
            YamlValue::Mapping(members) => {
                let at = key_position(members, key);
                if at < members.len() {
                    Some(members[at].1)
                } else {
                    None
                }
            },
            _ => None,
        }
    }

    /// The document with `value` for the member `key`, looking through
    /// tags; the document as it is where it is no mapping or has no such
    /// member.
    pub open spec fn set_member(self, key: Seq<char>, value: YamlValue) -> YamlValue
        decreases self,
    {
        match self {
            YamlValue::Tagged(tag, inner) => YamlValue::Tagged(
                tag,
                Box::new(inner.set_member(key, value)),
            ),
            YamlValue::Mapping(members) => YamlValue::Mapping(replaced(members, key, value)),
            other => other,
        }
    }

    /// The members of a mapping, looking through tags; `None` where the
    /// document is no mapping.
    pub open spec fn members(self) -> Option<Seq<(YamlValue, YamlValue)>>
        decreases self,
    {
        match self {
            YamlValue::Tagged(_, inner) => inner.members(),
            YamlValue::Mapping(members) => Some(members),
            _ => None,
        }
    }

    /// The items of a sequence, looking through tags; `None` where the
    /// document is no sequence.
    pub open spec fn items(self) -> Option<Seq<YamlValue>>
        decreases self,
    {
        match self {
            YamlValue::Tagged(_, inner) => inner.items(),
            YamlValue::Sequence(items) => Some(items),
            _ => None,
        }
    }
}

/// What `serde_yaml` reads from `text`: the document, or `None` where the
/// text is not one YAML document.
pub uninterp spec fn yaml_parsed(text: Seq<char>) -> Option<YamlValue>;

/// The text that `serde_yaml` writes for a document, or `None` where it
/// refuses to write it.
pub uninterp spec fn yaml_rendered(doc: YamlValue) -> Option<Seq<char>>;

/// The value of a sequence is the list of its items' values.
pub proof fn lemma_sequence_value(items: Vec<Yaml>)
    ensures
        Yaml::Sequence(items)@ == YamlValue::Sequence(values_of(items@)),
{
    assert(Yaml::Sequence(items)@->Sequence_0 =~= values_of(items@));
}

/// The value of a mapping is the list of its members' values.
pub proof fn lemma_mapping_value(members: Vec<(Yaml, Yaml)>)
    ensures
        Yaml::Mapping(members)@ == YamlValue::Mapping(members_of(members@)),
{
    assert(Yaml::Mapping(members)@->Mapping_0 =~= members_of(members@));
}

/// The position of a key is that of the first member with this key, or the
/// number of members where no member has it.
pub proof fn lemma_key_position(members: Seq<(YamlValue, YamlValue)>, key: Seq<char>)
    ensures
        0 <= key_position(members, key) <= members.len(),
        key_position(members, key) < members.len() ==> members[key_position(members, key)].0
            == YamlValue::Text(key),
        forall|i: int|
            0 <= i < key_position(members, key) ==> (#[trigger] members[i]).0 != YamlValue::Text(
                key,
            ),
    decreases members.len(),
{
    if members.len() == 0 {
    } else if members[0].0 == YamlValue::Text(key) {
    } else {
        let rest = members.drop_first();
        lemma_key_position(rest, key);
        let at = key_position(rest, key);
        assert forall|i: int| 0 <= i < 1 + at implies (#[trigger] members[i]).0 != YamlValue::Text(
            key,
        ) by {
            if i > 0 {
                assert(rest[i - 1] == members[i]);
            }
        }
        if at < rest.len() {
            assert(members[1 + at] == rest[at]);
        }
    }
}

/// Replacing the value of a member keeps the number of members, every key
/// in its place, and every value but that of the first member with the key.
pub proof fn lemma_replaced(members: Seq<(YamlValue, YamlValue)>, key: Seq<char>, value: YamlValue)
    ensures
        replaced(members, key, value).len() == members.len(),
        forall|i: int|
            0 <= i < members.len() ==> (#[trigger] replaced(members, key, value)[i]).0
                == members[i].0,
        forall|i: int|
            0 <= i < members.len() && i != key_position(members, key) ==> #[trigger] replaced(
                members,
                key,
                value,
            )[i] == members[i],
        key_position(members, key) < members.len() ==> replaced(members, key, value)[key_position(
            members,
            key,
        )].1 == value,
        forall|other: Seq<char>|
            key_position(replaced(members, key, value), other) == key_position(members, other),
{
    lemma_key_position(members, key);
    let after = replaced(members, key, value);
    assert forall|other: Seq<char>| key_position(after, other) == key_position(
        members,
        other,
    ) by {
        lemma_same_keys_same_position(after, members, other);
    }
}

/// Where two lists of members have the same keys in the same places, a key
/// has the same position in both.
pub proof fn lemma_same_keys_same_position(
    a: Seq<(YamlValue, YamlValue)>,
    b: Seq<(YamlValue, YamlValue)>,
    key: Seq<char>,
)
    requires
        a.len() == b.len(),
        forall|i: int| 0 <= i < a.len() ==> (#[trigger] a[i]).0 == b[i].0,
    ensures
        key_position(a, key) == key_position(b, key),
    decreases a.len(),
{
    if a.len() > 0 {
        assert(a[0].0 == b[0].0);
        if a[0].0 != YamlValue::Text(key) {
            let ra = a.drop_first();
            let rb = b.drop_first();
            assert forall|i: int| 0 <= i < ra.len() implies (#[trigger] ra[i]).0 == rb[i].0 by {
                assert(ra[i] == a[i + 1]);
                assert(rb[i] == b[i + 1]);
            }
            lemma_same_keys_same_position(ra, rb, key);
        }
    }
}

/// What a member holds is the value of the first member with its key.
pub proof fn lemma_member(doc: YamlValue, key: Seq<char>)
    ensures
        doc.member(key) == match doc.members() {
            Some(members) => if key_position(members, key) < members.len() {
                Some(members[key_position(members, key)].1)
            } else {
                None
            },
            None => None,
        },
    decreases doc,
{
    match doc {
        YamlValue::Tagged(_, inner) => {
            lemma_member(*inner, key);
        },
        _ => {},
    }
}

/// Setting a member replaces its value among the members of a mapping, and
/// changes nothing in any other document.
pub proof fn lemma_set_member(doc: YamlValue, key: Seq<char>, value: YamlValue)
    ensures
        doc.members() is None ==> doc.set_member(key, value) == doc,
        doc.members() matches Some(members) ==> doc.set_member(key, value).members() == Some(
            replaced(members, key, value),
        ),
    decreases doc,
{
    match doc {
        YamlValue::Tagged(_, inner) => {
            lemma_set_member(*inner, key, value);
        },
        _ => {},
    }
}

/// Turns a `serde_yaml::Value` into a document: each variant into the
/// variant of the same kind, a number and a tag as they are, the members of
/// a mapping in the order in which the `serde_yaml::Mapping` hands them out.
/// Nothing is claimed of the result.
#[verifier::external_body]
fn from_tree(tree: &serde_yaml::Value) -> Yaml {
    match tree {
        serde_yaml::Value::Null => Yaml::Null,
        serde_yaml::Value::Bool(b) => Yaml::Bool(*b),
        serde_yaml::Value::Number(n) => Yaml::Number(n.clone()),
        serde_yaml::Value::String(s) => Yaml::Text(s.clone()),
        serde_yaml::Value::Sequence(a) => Yaml::Sequence(a.iter().map(from_tree).collect()),
        serde_yaml::Value::Mapping(m) => Yaml::Mapping(
            m.iter().map(|(k, v)| (from_tree(k), from_tree(v))).collect(),
        ),
        serde_yaml::Value::Tagged(t) => Yaml::Tagged(t.tag.clone(), Box::new(from_tree(&t.value))),
    }
}

/// Turns a document into a `serde_yaml::Value`: each variant into the
/// variant of the same kind, a number and a tag as they are, the members of
/// a mapping collected into a `serde_yaml::Mapping`. Nothing is claimed of
/// the result.
#[verifier::external_body]
fn to_tree(doc: &Yaml) -> serde_yaml::Value {
    match doc {
        Yaml::Null => serde_yaml::Value::Null,
        Yaml::Bool(b) => serde_yaml::Value::Bool(*b),
        Yaml::Number(n) => serde_yaml::Value::Number(n.clone()),
        Yaml::Text(s) => serde_yaml::Value::String(s.clone()),
        Yaml::Sequence(a) => serde_yaml::Value::Sequence(a.iter().map(to_tree).collect()),
        Yaml::Mapping(m) => serde_yaml::Value::Mapping(
            m.iter().map(|(k, v)| (to_tree(k), to_tree(v))).collect(),
        ),
        Yaml::Tagged(t, v) => serde_yaml::Value::Tagged(
            Box::new(serde_yaml::value::TaggedValue { tag: t.clone(), value: to_tree(v) }),
        ),
    }
}

/// Calls `serde_yaml::from_str` for a `serde_yaml::Value`. The contract names
/// the outcome and claims nothing else of it: the same text always reads as
/// the same document, or always fails.
#[verifier::external_body]
fn parse_document(text: &str) -> (r: Option<Yaml>)
    ensures
        value_of(r) == yaml_parsed(text@),
{
    serde_yaml::from_str::<serde_yaml::Value>(text).ok().map(|tree| from_tree(&tree))
}

/// Calls `serde_yaml::to_string` on a `serde_yaml::Value`. The contract names
/// the outcome and claims nothing else of it: the same document is always
/// written the same, or always refused.
#[verifier::external_body]
fn render_document(doc: &Yaml) -> (r: Option<String>)
    ensures
        crate::text::optional_text(r) == yaml_rendered(doc@),
{
    serde_yaml::to_string(&to_tree(doc)).ok()
}

impl Yaml {
    /// Reads one YAML document from `text`.
    pub fn from_text(text: &str) -> (r: Option<Yaml>)
        ensures
            value_of(r) == yaml_parsed(text@),
    {
        parse_document(text)
    }

    /// Writes the document as YAML text.
    pub fn to_text(&self) -> (r: Option<String>)
        ensures
            crate::text::optional_text(r) == yaml_rendered(self@),
    {
        render_document(self)
    }

    /// The text document that holds the characters of `s`.
    pub fn text(s: &str) -> (r: Yaml)
        ensures
            r@ == YamlValue::Text(s@),
    {
        Yaml::Text(s.to_owned())
    }

    /// The sequence of the text documents of `list`.
    pub fn texts(list: &Vec<String>) -> (r: Yaml)
        ensures
            r@ == YamlValue::Sequence(text_values(texts(list@))),
    {
        let mut items: Vec<Yaml> = Vec::new();
        let mut i: usize = 0;
        while i < list.len()
            invariant
                i <= list.len(),
                items.len() == i,
                forall|j: int| 0 <= j < i ==> (#[trigger] items@[j])@ == YamlValue::Text(list@[j]@),
            decreases list.len() - i,
        {
            items.push(Yaml::Text(list[i].clone()));
            i = i + 1;
        }
        proof {
            lemma_sequence_value(items);
            assert(values_of(items@) =~= text_values(texts(list@)));
        }
        Yaml::Sequence(items)
    }

    /// Whether the document is the text `key`.
    pub fn is_text(&self, key: &str) -> (r: bool)
        ensures
            r == (self@ == YamlValue::Text(key@)),
    {
        match self {
            Yaml::Text(s) => crate::text::same_text(s.as_str(), key),
            _ => false,
        }
    }

    /// What the member `key` of a mapping holds, looking through tags.
    pub fn member(&self, key: &str) -> (r: Option<&Yaml>)
        ensures
            value_of_ref(r) == self@.member(key@),
        decreases self,
    {
        match self {
            Yaml::Tagged(_, inner) => inner.member(key),
            Yaml::Mapping(members) => {
                let at = find_key(members, key);
                proof {
                    lemma_mapping_value(*members);
                }
                if at < members.len() {
                    Some(&members[at].1)
                } else {
                    None
                }
            },
            _ => None,
        }
    }

    /// The document with `value` for the member `key`, looking through tags;
    /// the document as it is where it is no mapping or has no such member.
    pub fn set_member(self, key: &str, value: Yaml) -> (r: Yaml)
        ensures
            r@ == self@.set_member(key@, value@),
        decreases self,
    {
        match self {
            Yaml::Tagged(tag, inner) => Yaml::Tagged(tag, Box::new((*inner).set_member(key, value))),
            Yaml::Mapping(members) => {
                let mut members = members;
                let ghost before = members;
                let at = find_key(&members, key);
                if at < members.len() {
                    let old = members.remove(at);
                    members.insert(at, (old.0, value));
                    proof {
                        assert(members_of(members@) =~= replaced(
                            members_of(before@),
                            key@,
                            value@,
                        ));
                    }
                }
                proof {
                    lemma_mapping_value(before);
                    lemma_mapping_value(members);
                }
                Yaml::Mapping(members)
            },
            other => other,
        }
    }
}

/// The index of the first member whose key is the text `key`, or the number
/// of members where there is none.
pub fn find_key(members: &Vec<(Yaml, Yaml)>, key: &str) -> (r: usize)
    ensures
        r == key_position(members_of(members@), key@),
        r <= members.len(),
{
    let ghost all = members_of(members@);
    proof {
        lemma_key_position(all, key@);
    }
    let mut at: usize = 0;
    while at < members.len() && !members[at].0.is_text(key)
        invariant
            at <= members.len(),
            all == members_of(members@),
            forall|j: int| 0 <= j < at ==> (#[trigger] all[j]).0 != YamlValue::Text(key@),
        decreases members.len() - at,
    {
        assert(all[at as int].0 == members@[at as int].0@);
        at = at + 1;
    }
    proof {
        let p = key_position(all, key@);
        if at < members.len() {
            assert(all[at as int].0 == members@[at as int].0@);
        }
        if p < at {
            assert(all[p].0 == YamlValue::Text(key@));
        }
        if p > at {
            assert(all[at as int].0 == YamlValue::Text(key@));
        }
    }
    at
}

} // verus!
