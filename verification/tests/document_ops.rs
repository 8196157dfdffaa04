//! Behaviour of the document model: ordered fields, unique keys, lookup
//! and field removal.

use docstage::document::{Document, Value};

fn two_field_doc() -> Document {
    let mut d = Document::new();
    d.insert("hello", Value::Text("world".to_string()));
    d.insert("foo", Value::Text("bar".to_string()));
    d
}

#[test]
fn new_document_is_empty() {
    let d = Document::new();
    assert_eq!(d.len(), 0);
    assert!(!d.contains_key("anything"));
}

#[test]
fn insert_then_get_returns_value() {
    let d = two_field_doc();
    assert_eq!(d.len(), 2);
    assert_eq!(d.get("hello"), Some(&Value::Text("world".to_string())));
    assert_eq!(d.get("foo"), Some(&Value::Text("bar".to_string())));
    assert_eq!(d.get("missing"), None);
}

#[test]
fn insert_replaces_existing_key() {
    let mut d = Document::new();
    d.insert("k", Value::Int(1));
    d.insert("k", Value::Int(2));
    assert_eq!(d.len(), 1);
    assert_eq!(d.get("k"), Some(&Value::Int(2)));
}

#[test]
fn insert_keeps_order() {
    let mut d = Document::new();
    d.insert("a", Value::Int(1));
    d.insert("b", Value::Int(2));
    d.insert("c", Value::Int(3));
    assert_eq!(d.fields[0].0, "a");
    assert_eq!(d.fields[1].0, "b");
    assert_eq!(d.fields[2].0, "c");
}

#[test]
fn remove_drops_only_the_named_field() {
    let mut d = two_field_doc();
    d.remove("foo");
    let mut expected = Document::new();
    expected.insert("hello", Value::Text("world".to_string()));
    assert_eq!(d, expected);
}

#[test]
fn remove_absent_field_changes_nothing() {
    let mut d = Document::new();
    d.insert("hello", Value::Text("world".to_string()));
    let same = {
        let mut e = Document::new();
        e.insert("hello", Value::Text("world".to_string()));
        e
    };
    d.remove("foo");
    assert_eq!(d, same);
}

#[test]
fn remove_is_idempotent() {
    let mut once = two_field_doc();
    once.remove("foo");
    let mut twice = two_field_doc();
    twice.remove("foo");
    twice.remove("foo");
    assert_eq!(once, twice);
}

#[test]
fn contains_key_tracks_inserts_and_removes() {
    let mut d = Document::new();
    assert!(!d.contains_key("x"));
    d.insert("x", Value::Null);
    assert!(d.contains_key("x"));
    d.remove("x");
    assert!(!d.contains_key("x"));
}
