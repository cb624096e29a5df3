use log_searching::text::{join, join3, copy_texts, same_text};

#[test]
fn same_text_compares_characters() {
    assert!(same_text("get_log_source", "get_log_source"));
    assert!(!same_text("get_log_source", "get_log_source "));
    assert!(!same_text("a", "A"));
    assert!(same_text("", ""));
}

#[test]
fn join_puts_texts_one_after_the_other() {
    assert_eq!(join("ws://", "host:1"), "ws://host:1");
    assert_eq!(join("", ""), "");
    assert_eq!(join3("a", "", "b"), "ab");
    assert_eq!(join3("é", "日", "本"), "é日本");
}

#[test]
fn copy_texts_copies_each_text() {
    let list = vec!["a".to_string(), String::new(), "c".to_string()];
    assert_eq!(copy_texts(&list), list);
    assert_eq!(copy_texts(&vec![]), Vec::<String>::new());
}
