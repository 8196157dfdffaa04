//! The binary record codec: encoding then decoding yields a structurally
//! equal document, and corrupt buffers are rejected.

use docstage::codec::{decode_record, encode_record};
use docstage::document::{Document, Value};

fn scalar_doc() -> Document {
    let mut d = Document::new();
    d.insert("name", Value::Text("ada".to_string()));
    d.insert("age", Value::Int(-7));
    d.insert("active", Value::Boolean(true));
    d.insert("born", Value::Date(1_234_567_890_123));
    d.insert("note", Value::Null);
    d.insert("blob", Value::Binary(vec![0, 1, 2, 254, 255]));
    d
}

fn nested_doc() -> Document {
    let mut inner = Document::new();
    inner.insert("x", Value::Int(1));
    inner.insert("y", Value::Text("déjà vu ✓".to_string()));
    let mut d = Document::new();
    d.insert("child", Value::SubDoc(inner));
    d.insert(
        "items",
        Value::Sequence(vec![
            Value::Int(42),
            Value::Text("mixed".to_string()),
            Value::Sequence(vec![Value::Boolean(false), Value::Null]),
            Value::Binary(vec![9, 8, 7]),
        ]),
    );
    d
}

#[test]
fn roundtrip_scalar_kinds() {
    let d = scalar_doc();
    let bytes = encode_record(&d).expect("record must fit");
    let back = decode_record(&bytes).expect("own encoding must decode");
    assert_eq!(back, scalar_doc());
}

#[test]
fn roundtrip_nested_mappings_and_sequences() {
    let d = nested_doc();
    let bytes = encode_record(&d).expect("record must fit");
    let back = decode_record(&bytes).expect("own encoding must decode");
    assert_eq!(back, nested_doc());
}

#[test]
fn roundtrip_empty_document() {
    let d = Document::new();
    let bytes = encode_record(&d).expect("record must fit");
    let back = decode_record(&bytes).expect("own encoding must decode");
    assert_eq!(back, Document::new());
}

#[test]
fn length_prefix_counts_the_whole_record() {
    let bytes = encode_record(&scalar_doc()).expect("record must fit");
    let total = u32::from_le_bytes([bytes[0], bytes[1], bytes[2], bytes[3]]);
    assert_eq!(total as usize, bytes.len());
}

#[test]
fn decode_rejects_short_buffers() {
    assert_eq!(decode_record(&vec![]), None);
    assert_eq!(decode_record(&vec![1, 2, 3]), None);
}

#[test]
fn decode_rejects_wrong_length_prefix() {
    let mut bytes = encode_record(&scalar_doc()).expect("record must fit");
    bytes[0] = bytes[0].wrapping_add(1);
    assert_eq!(decode_record(&bytes), None);
}

#[test]
fn decode_rejects_truncated_record() {
    let mut bytes = encode_record(&scalar_doc()).expect("record must fit");
    bytes.pop();
    assert_eq!(decode_record(&bytes), None);
}

#[test]
fn decode_rejects_trailing_garbage() {
    let mut bytes = encode_record(&scalar_doc()).expect("record must fit");
    bytes.push(0);
    assert_eq!(decode_record(&bytes), None);
}

#[test]
fn decode_rejects_unknown_tag() {
    // A record announcing one field whose value carries an unused tag.
    let d = {
        let mut d = Document::new();
        d.insert("k", Value::Null);
        d
    };
    let mut bytes = encode_record(&d).expect("record must fit");
    // The null tag is the last byte of the record; overwrite it.
    let last = bytes.len() - 1;
    bytes[last] = 99;
    assert_eq!(decode_record(&bytes), None);
}

#[test]
fn roundtrip_extreme_integers() {
    let mut d = Document::new();
    d.insert("low", Value::Int(i64::MIN));
    d.insert("high", Value::Int(i64::MAX));
    d.insert("zero", Value::Int(0));
    let bytes = encode_record(&d).expect("record must fit");
    let back = decode_record(&bytes).expect("own encoding must decode");
    assert_eq!(back.get("low"), Some(&Value::Int(i64::MIN)));
    assert_eq!(back.get("high"), Some(&Value::Int(i64::MAX)));
    assert_eq!(back.get("zero"), Some(&Value::Int(0)));
}
