//! The exchange-buffer convention and the host-call entry point, driven
//! with real buffers from the host's side.

use docstage::codec::encode_record;
use docstage::document::{Document, Value};
use docstage::exchange::{
    decode_return_doc, encode_return_doc, get_input_doc, ReturnDocument, TransportError,
};
use docstage::runner::StageRunner;
use docstage::stages::{LimitStage, PassthroughStage, StatsStage};

fn sample_doc(n: i64) -> Document {
    let mut d = Document::new();
    d.insert("value", Value::Int(n));
    d
}

fn record_of(n: i64) -> Vec<u8> {
    encode_record(&sample_doc(n)).expect("record must fit")
}

#[test]
fn empty_input_buffer_means_no_document() {
    let inp = get_input_doc(&vec![]).expect("empty input is well-formed");
    assert_eq!(inp.doc, None);
}

#[test]
fn record_input_buffer_carries_the_document() {
    let inp = get_input_doc(&record_of(5)).expect("a whole record is well-formed");
    assert_eq!(inp.doc, Some(sample_doc(5)));
}

#[test]
fn corrupt_input_buffer_is_rejected() {
    assert_eq!(
        get_input_doc(&vec![7, 7, 7]),
        Err(TransportError::Corrupt)
    );
}

#[test]
fn return_envelope_roundtrip_with_document() {
    let rd = ReturnDocument { is_eof: false, next_doc: Some(sample_doc(9)) };
    let bytes = encode_return_doc(rd).expect("envelope must fit");
    let back = decode_return_doc(&bytes).expect("own envelope must decode");
    assert_eq!(back.is_eof, false);
    assert_eq!(back.next_doc, Some(sample_doc(9)));
}

#[test]
fn return_envelope_roundtrip_without_document() {
    let rd = ReturnDocument { is_eof: true, next_doc: None };
    let bytes = encode_return_doc(rd).expect("envelope must fit");
    assert_eq!(bytes.len(), 6);
    let back = decode_return_doc(&bytes).expect("own envelope must decode");
    assert_eq!(back.is_eof, true);
    assert_eq!(back.next_doc, None);
}

#[test]
fn corrupt_return_envelope_is_rejected() {
    assert_eq!(decode_return_doc(&vec![]), Err(TransportError::Corrupt));
    assert_eq!(
        decode_return_doc(&vec![6, 0, 0, 0, 2, 0]),
        Err(TransportError::Corrupt)
    );
}

#[test]
fn entry_point_passes_a_document_through() {
    let mut runner = StageRunner::new(PassthroughStage);
    let out = runner.handle_call(&record_of(1)).expect("call must succeed");
    let env = decode_return_doc(&out).expect("answer must decode");
    assert_eq!(env.is_eof, false);
    assert_eq!(env.next_doc, Some(sample_doc(1)));
}

#[test]
fn entry_point_terminal_flag_on_drained_stream() {
    let mut runner = StageRunner::new(PassthroughStage);
    let out = runner.handle_call(&vec![]).expect("call must succeed");
    let env = decode_return_doc(&out).expect("answer must decode");
    assert_eq!(env.is_eof, true);
    assert_eq!(env.next_doc, None);
}

#[test]
fn entry_point_rejects_corrupt_input() {
    let mut runner = StageRunner::new(PassthroughStage);
    assert_eq!(
        runner.handle_call(&vec![1, 2, 3]),
        Err(TransportError::Corrupt)
    );
}

#[test]
fn entry_point_after_terminal_repeats_terminal_envelope() {
    let mut runner = StageRunner::new(PassthroughStage);
    let first = runner.handle_call(&vec![]).expect("call must succeed");
    let env = decode_return_doc(&first).expect("answer must decode");
    assert!(env.is_eof);
    // The host breaks its side of the contract and calls twice more: once
    // drained, once with a fresh document.  Both answers stay terminal and
    // carry nothing.
    for input in [vec![], record_of(3)] {
        let again = runner.handle_call(&input).expect("call must not fail");
        let env = decode_return_doc(&again).expect("answer must decode");
        assert!(env.is_eof);
        assert_eq!(env.next_doc, None);
    }
}

#[test]
fn entry_point_drives_a_limit_stage_to_its_bound() {
    let mut runner = StageRunner::new(LimitStage::new(2));
    let first = decode_return_doc(&runner.handle_call(&record_of(1)).unwrap()).unwrap();
    assert_eq!(first.is_eof, false);
    assert_eq!(first.next_doc, Some(sample_doc(1)));
    let second = decode_return_doc(&runner.handle_call(&record_of(2)).unwrap()).unwrap();
    assert_eq!(second.is_eof, true);
    assert_eq!(second.next_doc, Some(sample_doc(2)));
    let third = decode_return_doc(&runner.handle_call(&record_of(3)).unwrap()).unwrap();
    assert_eq!(third.is_eof, true);
    assert_eq!(third.next_doc, None);
}

#[test]
fn entry_point_drives_a_stats_stage_to_one_summary() {
    let mut runner = StageRunner::new(StatsStage::new());
    for n in [2, 6] {
        let env = decode_return_doc(&runner.handle_call(&record_of(n)).unwrap()).unwrap();
        assert_eq!(env.is_eof, false);
        assert_eq!(env.next_doc, None);
    }
    let last = decode_return_doc(&runner.handle_call(&vec![]).unwrap()).unwrap();
    assert!(last.is_eof);
    let summary = last.next_doc.expect("a summary document is owed");
    assert_eq!(summary.get("count"), Some(&Value::Int(2)));
    assert_eq!(summary.get("sum"), Some(&Value::Int(8)));
    assert_eq!(summary.get("mean"), Some(&Value::Int(4)));
}
