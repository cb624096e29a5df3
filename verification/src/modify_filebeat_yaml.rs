//! The config mutator: points the shipper at another file.
//!
//! The shipper reads a list of inputs. To ship another file the first input
//! gets new `paths`, a new `fields.service` and a new `fields.hostname`;
//! nothing else in the document changes, and no other input is touched.

use crate::text::texts;
use crate::yaml::{
    find_key, key_position, lemma_key_position, lemma_mapping_value, lemma_member,
    lemma_replaced, lemma_same_keys_same_position, lemma_sequence_value, lemma_set_member,
    members_of, replaced, text_values, values_of, yaml_parsed, yaml_rendered, Yaml, YamlValue,
};
use vstd::prelude::*;

verus! {

/// Why a configuration was not rewritten.
#[derive(Debug, Clone, Copy, PartialEq, Eq, Structural)]
pub enum ConfigError {
    /// The text is not a YAML document.
    Unparsable,
    /// The document has no input at the index asked for.
    EntryNotFound,
    /// The rewritten document could not be written out.
    Unwritable,
}

/// Why the shipper's configuration file was not rewritten.
#[derive(Debug, Clone, Copy, PartialEq, Eq, Structural)]
pub enum RewriteFailure {
    /// The file could not be read.
    Unreadable,
    /// The file is not a YAML document.
    Unparsable,
    /// The document has no input to rewrite.
    EntryNotFound,
    /// The rewritten document could not be written out as text.
    Unwritable,
    /// The rewritten text could not be saved.
    NotSaved,
}

impl ConfigError {
    /// The failure of the file's rewrite that this error is.
    pub open spec fn failure(self) -> RewriteFailure {
        match self {
            ConfigError::Unparsable => RewriteFailure::Unparsable,
            ConfigError::EntryNotFound => RewriteFailure::EntryNotFound,
            ConfigError::Unwritable => RewriteFailure::Unwritable,
        }
    }

    /// The failure of the file's rewrite that this error is.
    pub fn as_failure(self) -> (r: RewriteFailure)
        ensures
            r == self.failure(),
    {
        match self {
            ConfigError::Unparsable => RewriteFailure::Unparsable,
            ConfigError::EntryNotFound => RewriteFailure::EntryNotFound,
            ConfigError::Unwritable => RewriteFailure::Unwritable,
        }
    }
}

/// The labels that the shipper puts on what it ships from one input.
#[derive(Debug, Clone, PartialEq, Eq)]
pub struct Fields {
    pub service: String,
    pub hostname: String,
}

/// One input of the shipper.
#[derive(Debug, Clone, PartialEq, Eq)]
pub struct LogConfig {
    /// The input's type, `type` in the document.
    pub kind: String,
    pub enabled: bool,
    pub paths: Vec<String>,
    pub fields: Fields,
    pub scan_frequency: String,
    pub close_inactive: String,
    pub fields_under_root: bool,
}

/// The index of the input that an upload rewrites: the first.
pub const DESIGNATED_ENTRY: usize = 0;

/// Gives the first input of `data` new paths and new labels. Fails, and
/// leaves `data` as it is, where there is no input.
pub fn modify_yaml(
    data: &mut Vec<LogConfig>,
    new_paths: Vec<String>,
    new_service: String,
    new_hostname: String,
) -> (r: Result<(), ConfigError>)
    ensures
        old(data)@.len() == 0 ==> r == Err::<(), ConfigError>(ConfigError::EntryNotFound)
            && final(data)@ == old(data)@,
        old(data)@.len() > 0 ==> r is Ok && final(data)@ == old(data)@.update(
            0,
            LogConfig {
                paths: new_paths,
                fields: Fields { service: new_service, hostname: new_hostname },
                ..old(data)@[0]
            },
        ),
{
    if data.len() == 0 {
        return Err(ConfigError::EntryNotFound);
    }
    let ghost before = data@;
    let mut entry = data.remove(DESIGNATED_ENTRY);
    entry.paths = new_paths;
    entry.fields.service = new_service;
    entry.fields.hostname = new_hostname;
    data.insert(DESIGNATED_ENTRY, entry);
    assert(data@ =~= before.update(
        0,
        LogConfig {
            paths: new_paths,
            fields: Fields { service: new_service, hostname: new_hostname },
            ..before[0]
        },
    ));
    Ok(())
}

/// The labels `fields` with the service and the hostname given: each is set
/// where the labels have it, and not added where they do not.
pub open spec fn labelled(fields: YamlValue, service: Seq<char>, hostname: Seq<char>) -> YamlValue {
    fields.set_member("service"@, YamlValue::Text(service)).set_member(
        "hostname"@,
        YamlValue::Text(hostname),
    )
}

/// The input `entry` with the labels of its member `fields` set, looking
/// through tags; the input as it is where it is no mapping or has no such
/// member.
pub open spec fn with_labels(entry: YamlValue, service: Seq<char>, hostname: Seq<char>) -> YamlValue
    decreases entry,
{
    match entry {
        YamlValue::Tagged(tag, inner) => YamlValue::Tagged(
            tag,
            Box::new(with_labels(*inner, service, hostname)),
        ),
        YamlValue::Mapping(members) => {
            let at = key_position(members, "fields"@);
            if at < members.len() {
                YamlValue::Mapping(
                    members.update(at, (members[at].0, labelled(members[at].1, service, hostname))),
                )
            } else {
                entry
            }
        },
        other => other,
    }
}

/// The input `entry` rewritten: its `paths` are the texts given, and the
/// `service` and `hostname` of its `fields` are those given. A member that
/// the input does not have is not added.
pub open spec fn rewritten_entry(
    entry: YamlValue,
    paths: Seq<Seq<char>>,
    service: Seq<char>,
    hostname: Seq<char>,
) -> YamlValue {
    with_labels(
        entry.set_member("paths"@, YamlValue::Sequence(text_values(paths))),
        service,
        hostname,
    )
}

/// The document `doc` with its input at `index` rewritten, looking through
/// tags; `None` where the document is no sequence or has no input there.
pub open spec fn rewritten(
    doc: YamlValue,
    index: int,
    paths: Seq<Seq<char>>,
    service: Seq<char>,
    hostname: Seq<char>,
) -> Option<YamlValue>
    decreases doc,
{
    match doc {
        YamlValue::Tagged(tag, inner) => match rewritten(*inner, index, paths, service, hostname) {
            Some(d) => Some(YamlValue::Tagged(tag, Box::new(d))),
            None => None,
        },
        YamlValue::Sequence(items) => if 0 <= index < items.len() {
            Some(
                YamlValue::Sequence(
                    items.update(index, rewritten_entry(items[index], paths, service, hostname)),
                ),
            )
        } else {
            None
        },
        _ => None,
    }
}

/// What rewriting the text `document` gives, where `parsed` is what the text
/// reads as YAML: the text of the rewritten document, or why there is none.
pub open spec fn rewrite_outcome(
    parsed: Option<YamlValue>,
    index: int,
    paths: Seq<Seq<char>>,
    service: Seq<char>,
    hostname: Seq<char>,
) -> Result<Seq<char>, ConfigError> {
    match parsed {
        None => Err(ConfigError::Unparsable),
        Some(doc) => match rewritten(doc, index, paths, service, hostname) {
            None => Err(ConfigError::EntryNotFound),
            Some(changed) => match yaml_rendered(changed) {
                Some(text) => Ok(text),
                None => Err(ConfigError::Unwritable),
            },
        },
    }
}

/// The characters of a text result.
pub open spec fn outcome_text(r: Result<String, ConfigError>) -> Result<Seq<char>, ConfigError> {
    match r {
        Ok(text) => Ok(text@),
        Err(e) => Err(e),
    }
}

/// Setting the labels of an input changes the value of its member `fields`
/// and nothing else.
pub proof fn lemma_with_labels(entry: YamlValue, service: Seq<char>, hostname: Seq<char>)
    ensures
        entry.members() is None ==> with_labels(entry, service, hostname) == entry,
        entry.members() matches Some(members) ==> with_labels(
            entry,
            service,
            hostname,
        ).members() == Some(
            if key_position(members, "fields"@) < members.len() {
                members.update(
                    key_position(members, "fields"@),
                    (
                        members[key_position(members, "fields"@)].0,
                        labelled(members[key_position(members, "fields"@)].1, service, hostname),
                    ),
                )
            } else {
                members
            },
        ),
    decreases entry,
{
    match entry {
        YamlValue::Tagged(_, inner) => {
            lemma_with_labels(*inner, service, hostname);
        },
        _ => {},
    }
}

/// Setting the labels keeps every label's name in its place and every value
/// but those of `service` and `hostname`, which become the texts given where
/// the labels have them.
pub proof fn lemma_labelled(fields: YamlValue, service: Seq<char>, hostname: Seq<char>)
    ensures
        fields.members() is None ==> labelled(fields, service, hostname) == fields,
        fields.members() matches Some(before) ==> (labelled(
            fields,
            service,
            hostname,
        ).members() matches Some(after) && {
            &&& after.len() == before.len()
            &&& forall|i: int| 0 <= i < before.len() ==> (#[trigger] after[i]).0 == before[i].0
            &&& forall|i: int|
                0 <= i < before.len() && before[i].0 != YamlValue::Text("service"@) && before[i].0
                    != YamlValue::Text("hostname"@) ==> #[trigger] after[i] == before[i]
        }),
        fields.member("service"@) is Some ==> labelled(fields, service, hostname).member(
            "service"@,
        ) == Some(YamlValue::Text(service)),
        fields.member("hostname"@) is Some ==> labelled(fields, service, hostname).member(
            "hostname"@,
        ) == Some(YamlValue::Text(hostname)),
{
    reveal_strlit("service");
    reveal_strlit("hostname");
    assert("service"@.len() == 7);
    assert("hostname"@.len() == 8);
    let first = fields.set_member("service"@, YamlValue::Text(service));
    let second = first.set_member("hostname"@, YamlValue::Text(hostname));
    lemma_set_member(fields, "service"@, YamlValue::Text(service));
    lemma_set_member(first, "hostname"@, YamlValue::Text(hostname));
    lemma_member(fields, "service"@);
    lemma_member(fields, "hostname"@);
    lemma_member(second, "service"@);
    lemma_member(second, "hostname"@);
    match fields.members() {
        Some(before) => {
            let middle = replaced(before, "service"@, YamlValue::Text(service));
            let after = replaced(middle, "hostname"@, YamlValue::Text(hostname));
            lemma_replaced(before, "service"@, YamlValue::Text(service));
            lemma_replaced(middle, "hostname"@, YamlValue::Text(hostname));
            lemma_key_position(before, "service"@);
            lemma_key_position(before, "hostname"@);
            lemma_key_position(middle, "hostname"@);
            let s = key_position(before, "service"@);
            let h = key_position(before, "hostname"@);
            assert(key_position(middle, "hostname"@) == h);
            assert(key_position(after, "service"@) == s);
            assert(key_position(after, "hostname"@) == h);
            assert forall|i: int| 0 <= i < before.len() implies (#[trigger] after[i]).0
                == before[i].0 by {
                assert(after[i].0 == middle[i].0);
                assert(middle[i].0 == before[i].0);
            }
            assert forall|i: int|
                0 <= i < before.len() && before[i].0 != YamlValue::Text("service"@) && before[i].0
                    != YamlValue::Text("hostname"@) implies #[trigger] after[i] == before[i] by {
                assert(i != s);
                assert(i != h);
                assert(after[i] == middle[i]);
                assert(middle[i] == before[i]);
            }
            if s < before.len() {
                assert(s != h);
                assert(middle[s].1 == YamlValue::Text(service));
                assert(after[s] == middle[s]);
            }
        },
        None => {},
    }
}

/// Rewriting an input keeps every member's key in its place and every value
/// but those of `paths` and `fields`. Its `paths`, where it has them, become
/// the texts given; its `fields`, where it has them, get their labels set.
/// An input that is no mapping stays as it is.
pub proof fn lemma_rewritten_entry(
    entry: YamlValue,
    paths: Seq<Seq<char>>,
    service: Seq<char>,
    hostname: Seq<char>,
)
    ensures
        entry.members() is None ==> rewritten_entry(entry, paths, service, hostname) == entry,
        entry.members() matches Some(before) ==> (rewritten_entry(
            entry,
            paths,
            service,
            hostname,
        ).members() matches Some(after) && {
            &&& after.len() == before.len()
            &&& forall|i: int| 0 <= i < before.len() ==> (#[trigger] after[i]).0 == before[i].0
            &&& forall|i: int|
                0 <= i < before.len() && before[i].0 != YamlValue::Text("paths"@) && before[i].0
                    != YamlValue::Text("fields"@) ==> #[trigger] after[i] == before[i]
        }),
        entry.member("paths"@) is Some ==> rewritten_entry(entry, paths, service, hostname).member(
            "paths"@,
        ) == Some(YamlValue::Sequence(text_values(paths))),
        entry.member("fields"@) matches Some(fields) ==> rewritten_entry(
            entry,
            paths,
            service,
            hostname,
        ).member("fields"@) == Some(labelled(fields, service, hostname)),
{
    reveal_strlit("paths");
    reveal_strlit("fields");
    assert("paths"@.len() == 5);
    assert("fields"@.len() == 6);
    let listed = YamlValue::Sequence(text_values(paths));
    let first = entry.set_member("paths"@, listed);
    let second = with_labels(first, service, hostname);
    lemma_set_member(entry, "paths"@, listed);
    lemma_with_labels(first, service, hostname);
    lemma_member(entry, "paths"@);
    lemma_member(entry, "fields"@);
    lemma_member(second, "paths"@);
    lemma_member(second, "fields"@);
    match entry.members() {
        Some(before) => {
            let middle = replaced(before, "paths"@, listed);
            lemma_replaced(before, "paths"@, listed);
            lemma_key_position(before, "paths"@);
            lemma_key_position(before, "fields"@);
            lemma_key_position(middle, "fields"@);
            let p = key_position(before, "paths"@);
            let f = key_position(before, "fields"@);
            assert(key_position(middle, "fields"@) == f);
            let after = second.members()->0;
            assert(after.len() == before.len());
            assert forall|i: int| 0 <= i < before.len() implies (#[trigger] after[i]).0
                == before[i].0 by {
                assert(middle[i].0 == before[i].0);
            }
            lemma_same_keys_same_position(after, before, "paths"@);
            lemma_same_keys_same_position(after, before, "fields"@);
            assert forall|i: int|
                0 <= i < before.len() && before[i].0 != YamlValue::Text("paths"@) && before[i].0
                    != YamlValue::Text("fields"@) implies #[trigger] after[i] == before[i] by {
                assert(i != p);
                assert(i != f);
                assert(middle[i] == before[i]);
            }
            if p < before.len() {
                assert(p != f);
                assert(middle[p].1 == listed);
            }
            if f < before.len() {
                assert(p != f);
                assert(middle[f] == before[f]);
            }
        },
        None => {},
    }
}

/// Rewriting a document keeps the number of its inputs and every input but
/// the one at `index`, which is rewritten. It succeeds exactly where the
/// document is a sequence with an input at `index`.
pub proof fn lemma_rewritten(
    doc: YamlValue,
    index: int,
    paths: Seq<Seq<char>>,
    service: Seq<char>,
    hostname: Seq<char>,
)
    ensures
        rewritten(doc, index, paths, service, hostname) is Some <==> (doc.items() matches Some(
            items,
        ) && 0 <= index < items.len()),
        rewritten(doc, index, paths, service, hostname) matches Some(changed) ==> changed.items()
            == Some(
            doc.items()->0.update(
                index,
                rewritten_entry(doc.items()->0[index], paths, service, hostname),
            ),
        ),
    decreases doc,
{
    match doc {
        YamlValue::Tagged(_, inner) => {
            lemma_rewritten(*inner, index, paths, service, hostname);
        },
        _ => {},
    }
}

/// A document without inputs is not rewritten: there is no input to rewrite.
pub proof fn lemma_nothing_to_rewrite(
    doc: YamlValue,
    index: int,
    paths: Seq<Seq<char>>,
    service: Seq<char>,
    hostname: Seq<char>,
)
    requires
        doc.items() matches Some(items) && items.len() == 0,
    ensures
        rewritten(doc, index, paths, service, hostname) is None,
        rewrite_outcome(Some(doc), index, paths, service, hostname) == Err::<
            Seq<char>,
            ConfigError,
        >(ConfigError::EntryNotFound),
{
    lemma_rewritten(doc, index, paths, service, hostname);
}

/// Sets the labels of the member `fields` of an input.
fn set_labels(entry: Yaml, service: &str, hostname: &str) -> (r: Yaml)
    ensures
        r@ == with_labels(entry@, service@, hostname@),
    decreases entry,
{
    match entry {
        Yaml::Tagged(tag, inner) => Yaml::Tagged(
            tag,
            Box::new(set_labels(*inner, service, hostname)),
        ),
        Yaml::Mapping(members) => {
            let mut members = members;
            let ghost before = members;
            let at = find_key(&members, "fields");
            if at < members.len() {
                let old = members.remove(at);
                let fields = old.1.set_member("service", Yaml::text(service)).set_member(
                    "hostname",
                    Yaml::text(hostname),
                );
                members.insert(at, (old.0, fields));
                proof {
                    let all = members_of(before@);
                    assert(members_of(members@) =~= all.update(
                        at as int,
                        (all[at as int].0, labelled(all[at as int].1, service@, hostname@)),
                    ));
                }
            }
            proof {
                lemma_mapping_value(before);
                lemma_mapping_value(members);
            }
            Yaml::Mapping(members)
        },
        other => other,
    }
}

/// Rewrites the input at `index` of a document: its `paths`, and the
/// `service` and `hostname` of its `fields`. Fails where the document has no
/// input there.
pub fn rewrite_entry(
    doc: Yaml,
    index: usize,
    new_paths: &Vec<String>,
    new_service: &str,
    new_hostname: &str,
) -> (r: Result<Yaml, ConfigError>)
    ensures
        match r {
            Ok(changed) => rewritten(
                doc@,
                index as int,
                texts(new_paths@),
                new_service@,
                new_hostname@,
            ) == Some(changed@),
            Err(e) => e == ConfigError::EntryNotFound && rewritten(
                doc@,
                index as int,
                texts(new_paths@),
                new_service@,
                new_hostname@,
            ) is None,
        },
    decreases doc,
{
    match doc {
        Yaml::Tagged(tag, inner) => match rewrite_entry(
            *inner,
            index,
            new_paths,
            new_service,
            new_hostname,
        ) {
            Ok(changed) => Ok(Yaml::Tagged(tag, Box::new(changed))),
            Err(e) => Err(e),
        },
        Yaml::Sequence(items) => {
            let mut items = items;
            let ghost before = items;
            proof {
                lemma_sequence_value(before);
            }
            if index < items.len() {
                let entry = items.remove(index);
                let entry = entry.set_member("paths", Yaml::texts(new_paths));
                let entry = set_labels(entry, new_service, new_hostname);
                items.insert(index, entry);
                proof {
                    lemma_sequence_value(items);
                    assert(values_of(items@) =~= values_of(before@).update(
                        index as int,
                        rewritten_entry(
                            values_of(before@)[index as int],
                            texts(new_paths@),
                            new_service@,
                            new_hostname@,
                        ),
                    ));
                }
                Ok(Yaml::Sequence(items))
            } else {
                Err(ConfigError::EntryNotFound)
            }
        },
        _ => Err(ConfigError::EntryNotFound),
    }
}

/// Rewrites the first input of the configuration `document`: reads the text,
/// gives the input new paths and new labels, and writes the whole document
/// out again. Fails where the text is no YAML document, where the document
/// has no input, or where the rewritten document cannot be written: then
/// there is no text to put in the place of the old one.
pub fn modify_yaml_dynamic(
    document: &str,
    new_paths: Vec<String>,
    new_service: String,
    new_hostname: String,
) -> (r: Result<String, ConfigError>)
    ensures
        outcome_text(r) == rewrite_outcome(
            yaml_parsed(document@),
            DESIGNATED_ENTRY as int,
            texts(new_paths@),
            new_service@,
            new_hostname@,
        ),
{
    match Yaml::from_text(document) {
        None => Err(ConfigError::Unparsable),
        Some(doc) => match rewrite_entry(
            doc,
            DESIGNATED_ENTRY,
            &new_paths,
            new_service.as_str(),
            new_hostname.as_str(),
        ) {
            Err(e) => Err(e),
            Ok(changed) => match changed.to_text() {
                Some(text) => Ok(text),
                None => Err(ConfigError::Unwritable),
            },
        },
    }
}

/// What rewriting the shipper's configuration file gives, where `contents`
/// is what the file holds, if it could be read, and `parsed` what that reads
/// as YAML: the text to save in its place, or why there is none. A file
/// that could not be read is not rewritten.
pub open spec fn file_outcome(
    contents: Option<Seq<char>>,
    parsed: Option<YamlValue>,
    paths: Seq<Seq<char>>,
    service: Seq<char>,
    hostname: Seq<char>,
) -> Result<Seq<char>, RewriteFailure> {
    match contents {
        None => Err(RewriteFailure::Unreadable),
        Some(_) => match rewrite_outcome(parsed, DESIGNATED_ENTRY as int, paths, service, hostname) {
            Ok(text) => Ok(text),
            Err(e) => Err(e.failure()),
        },
    }
}

/// What the contents of a file read as YAML; nothing where there are none.
pub open spec fn parsed_contents(contents: Option<&str>) -> Option<YamlValue> {
    match contents {
        Some(text) => yaml_parsed(text@),
        None => None,
    }
}

/// The characters of the contents of a file.
pub open spec fn contents_text(contents: Option<&str>) -> Option<Seq<char>> {
    match contents {
        Some(text) => Some(text@),
        None => None,
    }
}

/// The characters of a text result.
pub open spec fn saved_text(r: Result<String, RewriteFailure>) -> Result<Seq<char>, RewriteFailure> {
    match r {
        Ok(text) => Ok(text@),
        Err(e) => Err(e),
    }
}

/// Rewrites the first input of the shipper's configuration file, given what
/// the file holds, if it could be read: the text to save in its place, or
/// why the file stays as it is.
pub fn rewrite_shipper_input(
    contents: Option<&str>,
    new_paths: Vec<String>,
    new_service: String,
    new_hostname: String,
) -> (r: Result<String, RewriteFailure>)
    ensures
        saved_text(r) == file_outcome(
            contents_text(contents),
            parsed_contents(contents),
            texts(new_paths@),
            new_service@,
            new_hostname@,
        ),
{
    match contents {
        None => Err(RewriteFailure::Unreadable),
        Some(document) => match modify_yaml_dynamic(document, new_paths, new_service, new_hostname) {
            Ok(text) => Ok(text),
            Err(e) => Err(e.as_failure()),
        },
    }
}

} // verus!
