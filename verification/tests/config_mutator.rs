use log_searching::modify_filebeat_yaml::{
    modify_yaml, modify_yaml_dynamic, rewrite_entry, rewrite_shipper_input, ConfigError, Fields,
    LogConfig, RewriteFailure,
};
use log_searching::yaml::{find_key, Yaml};

fn s(text: &str) -> String {
    text.to_string()
}

const TWO_INPUTS: &str = "- type: log
  enabled: true
  paths:
  - /var/log/old/*.log
  fields:
    service: old-service
    hostname: old-host
    zone: eu
  scan_frequency: 10s
  close_inactive: 5m
  fields_under_root: true
  retries: 3
  ratio: 0.5
- type: log
  enabled: false
  paths:
  - /var/log/other.log
  fields:
    service: other
    hostname: elsewhere
";

fn entries(doc: &Yaml) -> &Vec<Yaml> {
    match doc {
        Yaml::Sequence(items) => items,
        other => panic!("not a sequence: {:?}", other),
    }
}

fn members(doc: &Yaml) -> &Vec<(Yaml, Yaml)> {
    match doc {
        Yaml::Mapping(members) => members,
        other => panic!("not a mapping: {:?}", other),
    }
}

fn typed(service: &str) -> LogConfig {
    LogConfig {
        kind: s("log"),
        enabled: true,
        paths: vec![s("/var/log/a.log"), s("/var/log/b.log")],
        fields: Fields { service: s(service), hostname: s("host") },
        scan_frequency: s("10s"),
        close_inactive: s("5m"),
        fields_under_root: true,
    }
}

#[test]
fn modify_yaml_dynamic_sets_the_three_fields_of_the_first_input() {
    let out = modify_yaml_dynamic(TWO_INPUTS, vec![s("/x/log.log")], s("svc1"), s("h1"))
        .expect("the document has an input");
    let doc = Yaml::from_text(&out).expect("the result is YAML");
    let first = &entries(&doc)[0];
    assert_eq!(first.member("paths"), Some(&Yaml::Sequence(vec![Yaml::Text(s("/x/log.log"))])));
    let fields = first.member("fields").expect("the input has fields");
    assert_eq!(fields.member("service"), Some(&Yaml::Text(s("svc1"))));
    assert_eq!(fields.member("hostname"), Some(&Yaml::Text(s("h1"))));
}

#[test]
fn modify_yaml_dynamic_writes_the_document_out() {
    let out = modify_yaml_dynamic(
        "- type: log\n  paths:\n  - /old\n  fields:\n    service: a\n    hostname: b\n",
        vec![s("/x/log.log")],
        s("svc1"),
        s("h1"),
    );
    assert_eq!(
        out,
        Ok(s("- type: log\n  paths:\n  - /x/log.log\n  fields:\n    service: svc1\n    hostname: h1\n"))
    );
}

#[test]
fn modify_yaml_dynamic_keeps_everything_else() {
    let before = Yaml::from_text(TWO_INPUTS).expect("the document is YAML");
    let out = modify_yaml_dynamic(TWO_INPUTS, vec![s("/x/log.log")], s("svc1"), s("h1"))
        .expect("the document has an input");
    let after = Yaml::from_text(&out).expect("the result is YAML");

    assert_eq!(entries(&after).len(), entries(&before).len());
    assert_eq!(entries(&after)[1], entries(&before)[1]);

    let old = members(&entries(&before)[0]);
    let new = members(&entries(&after)[0]);
    assert_eq!(new.len(), old.len());
    for i in 0..old.len() {
        assert_eq!(new[i].0, old[i].0);
        let key = &old[i].0;
        if !key.is_text("paths") && !key.is_text("fields") {
            assert_eq!(new[i].1, old[i].1);
        }
    }

    let old_fields = members(entries(&before)[0].member("fields").expect("fields"));
    let new_fields = members(entries(&after)[0].member("fields").expect("fields"));
    assert_eq!(new_fields.len(), old_fields.len());
    assert_eq!(new_fields[2], (Yaml::Text(s("zone")), Yaml::Text(s("eu"))));
    assert_eq!(find_key(new_fields, "zone"), 2);
}

#[test]
fn modify_yaml_dynamic_twice_with_the_same_values_changes_nothing_more() {
    let once = modify_yaml_dynamic(TWO_INPUTS, vec![s("/x/log.log")], s("svc1"), s("h1"))
        .expect("the document has an input");
    let twice = modify_yaml_dynamic(&once, vec![s("/x/log.log")], s("svc1"), s("h1"))
        .expect("the document has an input");
    assert_eq!(once, twice);
}

#[test]
fn modify_yaml_dynamic_fails_without_inputs() {
    assert_eq!(
        modify_yaml_dynamic("[]", vec![s("/x/log.log")], s("svc1"), s("h1")),
        Err(ConfigError::EntryNotFound)
    );
    assert_eq!(
        modify_yaml_dynamic("", vec![s("/x/log.log")], s("svc1"), s("h1")),
        Err(ConfigError::EntryNotFound)
    );
}

#[test]
fn modify_yaml_dynamic_fails_on_what_is_no_list_of_inputs() {
    assert_eq!(
        modify_yaml_dynamic("paths: [a]\n", vec![], s(""), s("")),
        Err(ConfigError::EntryNotFound)
    );
    assert_eq!(modify_yaml_dynamic("just text", vec![], s(""), s("")), Err(ConfigError::EntryNotFound));
}

#[test]
fn modify_yaml_dynamic_fails_on_what_is_no_yaml() {
    assert_eq!(
        modify_yaml_dynamic("- type: [unclosed", vec![], s(""), s("")),
        Err(ConfigError::Unparsable)
    );
    assert_eq!(
        modify_yaml_dynamic("a: 1\n---\nb: 2\n", vec![], s(""), s("")),
        Err(ConfigError::Unparsable)
    );
}

#[test]
fn modify_yaml_dynamic_adds_no_member_that_is_missing() {
    let out = modify_yaml_dynamic("- type: log\n  fields:\n    hostname: b\n", vec![s("/x")], s("svc1"), s("h1"));
    assert_eq!(out, Ok(s("- type: log\n  fields:\n    hostname: h1\n")));
    let out = modify_yaml_dynamic("- type: log\n  paths: none\n", vec![s("/x"), s("/y")], s("svc1"), s("h1"));
    assert_eq!(out, Ok(s("- type: log\n  paths:\n  - /x\n  - /y\n")));
    let out = modify_yaml_dynamic("- just text\n- 7\n", vec![s("/x")], s("svc1"), s("h1"));
    assert_eq!(out, Ok(s("- just text\n- 7\n")));
}

#[test]
fn rewrite_entry_rewrites_the_input_asked_for() {
    let doc = Yaml::from_text(TWO_INPUTS).expect("the document is YAML");
    let before = Yaml::from_text(TWO_INPUTS).expect("the document is YAML");
    let after = rewrite_entry(doc, 1, &vec![s("/new")], "svc", "host").expect("there is a second input");
    assert_eq!(entries(&after)[0], entries(&before)[0]);
    let second = &entries(&after)[1];
    assert_eq!(second.member("paths"), Some(&Yaml::Sequence(vec![Yaml::Text(s("/new"))])));
    assert_eq!(second.member("enabled"), Some(&Yaml::Bool(false)));
    let fields = second.member("fields").expect("fields");
    assert_eq!(fields.member("service"), Some(&Yaml::Text(s("svc"))));
    assert_eq!(fields.member("hostname"), Some(&Yaml::Text(s("host"))));
}

#[test]
fn rewrite_entry_fails_past_the_last_input() {
    let doc = Yaml::from_text(TWO_INPUTS).expect("the document is YAML");
    assert_eq!(rewrite_entry(doc, 2, &vec![], "", ""), Err(ConfigError::EntryNotFound));
    assert_eq!(rewrite_entry(Yaml::Sequence(vec![]), 0, &vec![], "", ""), Err(ConfigError::EntryNotFound));
    assert_eq!(rewrite_entry(Yaml::Null, 0, &vec![], "", ""), Err(ConfigError::EntryNotFound));
}

#[test]
fn rewrite_entry_looks_through_tags() {
    let doc = Yaml::from_text("!inputs\n- !input\n  paths: [a]\n  fields: !labels\n    service: s\n")
        .expect("the document is YAML");
    let after = rewrite_entry(doc, 0, &vec![s("/x")], "svc", "host").expect("there is an input");
    let text = after.to_text().expect("the document can be written");
    assert_eq!(text, "!inputs\n- !input\n  paths:\n  - /x\n  fields: !labels\n    service: svc\n");
}

#[test]
fn modify_yaml_sets_the_three_fields_of_the_first_input() {
    let mut data = vec![typed("one"), typed("two")];
    let r = modify_yaml(&mut data, vec![s("/x/log.log")], s("svc1"), s("h1"));
    assert_eq!(r, Ok(()));
    assert_eq!(
        data[0],
        LogConfig {
            kind: s("log"),
            enabled: true,
            paths: vec![s("/x/log.log")],
            fields: Fields { service: s("svc1"), hostname: s("h1") },
            scan_frequency: s("10s"),
            close_inactive: s("5m"),
            fields_under_root: true,
        }
    );
    assert_eq!(data[1], typed("two"));
    assert_eq!(data.len(), 2);
}

#[test]
fn modify_yaml_fails_without_inputs() {
    let mut data: Vec<LogConfig> = vec![];
    assert_eq!(modify_yaml(&mut data, vec![s("/x")], s("a"), s("b")), Err(ConfigError::EntryNotFound));
    assert!(data.is_empty());
}

#[test]
fn yaml_set_member_replaces_the_first_of_its_key_only() {
    let doc = Yaml::Mapping(vec![
        (Yaml::Text(s("a")), Yaml::Null),
        (Yaml::Text(s("k")), Yaml::Bool(true)),
        (Yaml::Text(s("k")), Yaml::Bool(false)),
    ]);
    let after = doc.set_member("k", Yaml::text("v"));
    assert_eq!(
        after,
        Yaml::Mapping(vec![
            (Yaml::Text(s("a")), Yaml::Null),
            (Yaml::Text(s("k")), Yaml::Text(s("v"))),
            (Yaml::Text(s("k")), Yaml::Bool(false)),
        ])
    );
    assert_eq!(after.member("k"), Some(&Yaml::Text(s("v"))));
    assert_eq!(after.member("none"), None);
    assert_eq!(Yaml::Null.set_member("k", Yaml::Null), Yaml::Null);
}

#[test]
fn yaml_text_round_trip_keeps_the_document() {
    let doc = Yaml::from_text(TWO_INPUTS).expect("the document is YAML");
    let text = doc.to_text().expect("the document can be written");
    assert_eq!(text, TWO_INPUTS);
    assert_eq!(Yaml::from_text(&text), Some(doc));
    assert_eq!(Yaml::texts(&vec![s("a"), s("b")]).to_text(), Some(s("- a\n- b\n")));
}

#[test]
fn modify_yaml_dynamic_fails_on_what_cannot_be_written_again() {
    assert_eq!(
        modify_yaml_dynamic("- !t a: b\n", vec![s("/x")], s("svc1"), s("h1")),
        Err(ConfigError::Unwritable)
    );
}

#[test]
fn yaml_to_text_refuses_a_tag_on_a_tag() {
    let tag = match Yaml::from_text("!a x").expect("a tagged text") {
        Yaml::Tagged(tag, _) => tag,
        other => panic!("not tagged: {:?}", other),
    };
    let twice = Yaml::Tagged(tag.clone(), Box::new(Yaml::Tagged(tag, Box::new(Yaml::Null))));
    assert_eq!(twice.to_text(), None);
    let after = rewrite_entry(Yaml::Sequence(vec![twice]), 0, &vec![], "", "").expect("an input");
    assert_eq!(after.to_text(), None);
}

#[test]
fn rewrite_shipper_input_gives_the_text_to_save() {
    assert_eq!(
        rewrite_shipper_input(
            Some("- type: log\n  paths:\n  - /old\n  fields:\n    service: a\n    hostname: b\n"),
            vec![s("/x/log.log")],
            s("svc1"),
            s("h1"),
        ),
        Ok(s("- type: log\n  paths:\n  - /x/log.log\n  fields:\n    service: svc1\n    hostname: h1\n"))
    );
    assert_eq!(
        rewrite_shipper_input(Some(TWO_INPUTS), vec![s("/x")], s("a"), s("b")),
        modify_yaml_dynamic(TWO_INPUTS, vec![s("/x")], s("a"), s("b")).map_err(|e| e.as_failure())
    );
}

#[test]
fn rewrite_shipper_input_says_why_the_file_stays_as_it_is() {
    let rewrite = |contents: Option<&str>| rewrite_shipper_input(contents, vec![s("/x")], s("a"), s("b"));
    assert_eq!(rewrite(None), Err(RewriteFailure::Unreadable));
    assert_eq!(rewrite(Some("- type: [unclosed")), Err(RewriteFailure::Unparsable));
    assert_eq!(rewrite(Some("[]")), Err(RewriteFailure::EntryNotFound));
    assert_eq!(rewrite(Some("")), Err(RewriteFailure::EntryNotFound));
    assert_eq!(rewrite(Some("- !t a: b\n")), Err(RewriteFailure::Unwritable));
}

#[test]
fn config_errors_are_failures_of_the_rewrite() {
    assert_eq!(ConfigError::Unparsable.as_failure(), RewriteFailure::Unparsable);
    assert_eq!(ConfigError::EntryNotFound.as_failure(), RewriteFailure::EntryNotFound);
    assert_eq!(ConfigError::Unwritable.as_failure(), RewriteFailure::Unwritable);
}
