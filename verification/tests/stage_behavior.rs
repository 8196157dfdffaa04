//! The stage state machine and the sample stages, driven by the mock
//! harness exactly as a host would drive them.

use docstage::document::{Document, Value};
use docstage::harness::MockHost;
use docstage::stage::{GetNextResult, PipelineStage};
use docstage::stages::{LimitStage, PassthroughStage, ProjectStage, StatsStage};

fn tagged(n: i64) -> Document {
    let mut d = Document::new();
    d.insert("tag", Value::Int(n));
    d
}

fn valued(n: i64) -> Document {
    let mut d = Document::new();
    d.insert("value", Value::Int(n));
    d
}

#[test]
fn passthrough_terminal_on_none() {
    let mut stage = PassthroughStage;
    assert_eq!(stage.get_next(None), GetNextResult::EOF(None));
}

#[test]
fn stats_terminal_on_none_never_needs_more() {
    let mut stage = StatsStage::new();
    match stage.get_next(None) {
        GetNextResult::EOF(Some(_)) => {},
        other => panic!("expected a terminal result with a summary, got {:?}", other),
    }
}

#[test]
fn passthrough_preserves_order() {
    let mut host = MockHost::new();
    host.load(tagged(1));
    host.load(tagged(2));
    host.load(tagged(3));
    let mut stage = PassthroughStage;
    let (emitted, fin) = host.run(&mut stage);
    assert_eq!(emitted, vec![tagged(1), tagged(2), tagged(3)]);
    assert_eq!(fin, None);
}

#[test]
fn passthrough_empty_feed_only_terminates() {
    let host = MockHost::new();
    let mut stage = PassthroughStage;
    let (emitted, fin) = host.run(&mut stage);
    assert!(emitted.is_empty());
    assert_eq!(fin, None);
}

#[test]
fn limit_two_emits_one_then_finishes_with_second() {
    let mut stage = LimitStage::new(2);
    assert_eq!(
        stage.get_next(Some(tagged(1))),
        GetNextResult::DocumentReady(tagged(1))
    );
    assert_eq!(
        stage.get_next(Some(tagged(2))),
        GetNextResult::EOF(Some(tagged(2)))
    );
}

#[test]
fn limit_two_run_never_sees_third_document() {
    let mut host = MockHost::new();
    host.load(tagged(1));
    host.load(tagged(2));
    host.load(tagged(3));
    let mut stage = LimitStage::new(2);
    let (emitted, fin) = host.run(&mut stage);
    assert_eq!(emitted, vec![tagged(1)]);
    assert_eq!(fin, Some(tagged(2)));
    assert_eq!(stage.num_seen, 2);
}

#[test]
fn limit_terminal_on_none() {
    let mut stage = LimitStage::new(2);
    assert_eq!(stage.get_next(None), GetNextResult::EOF(None));
}

#[test]
fn project_removes_named_field() {
    let mut stage = ProjectStage::new("foo".to_string());
    let mut d = Document::new();
    d.insert("hello", Value::Text("world".to_string()));
    d.insert("foo", Value::Text("bar".to_string()));
    let mut expected = Document::new();
    expected.insert("hello", Value::Text("world".to_string()));
    assert_eq!(
        stage.get_next(Some(d)),
        GetNextResult::DocumentReady(expected)
    );
}

#[test]
fn project_leaves_document_without_field_unchanged() {
    let mut stage = ProjectStage::new("foo".to_string());
    let mut d = Document::new();
    d.insert("hello", Value::Text("world".to_string()));
    let mut expected = Document::new();
    expected.insert("hello", Value::Text("world".to_string()));
    assert_eq!(
        stage.get_next(Some(d)),
        GetNextResult::DocumentReady(expected)
    );
}

#[test]
fn stats_of_zero_documents_is_degenerate_summary() {
    let host = MockHost::new();
    let mut stage = StatsStage::new();
    let (emitted, fin) = host.run(&mut stage);
    assert!(emitted.is_empty());
    let summary = fin.expect("a summary document is owed");
    assert_eq!(summary.get("count"), Some(&Value::Int(0)));
    assert_eq!(summary.get("sum"), Some(&Value::Int(0)));
    assert_eq!(summary.get("mean"), Some(&Value::Int(0)));
    assert_eq!(summary.get("min"), Some(&Value::Int(0)));
    assert_eq!(summary.get("max"), Some(&Value::Int(0)));
}

#[test]
fn stats_blocks_then_summarizes() {
    let mut host = MockHost::new();
    host.load(valued(1));
    host.load(valued(2));
    host.load(valued(4));
    let mut stage = StatsStage::new();
    let (emitted, fin) = host.run(&mut stage);
    assert!(emitted.is_empty());
    let summary = fin.expect("a summary document is owed");
    assert_eq!(summary.get("count"), Some(&Value::Int(3)));
    assert_eq!(summary.get("sum"), Some(&Value::Int(7)));
    assert_eq!(summary.get("mean"), Some(&Value::Int(2)));
    assert_eq!(summary.get("min"), Some(&Value::Int(1)));
    assert_eq!(summary.get("max"), Some(&Value::Int(4)));
}

#[test]
fn stats_each_document_answers_needs_more() {
    let mut stage = StatsStage::new();
    assert_eq!(
        stage.get_next(Some(valued(5))),
        GetNextResult::NeedsNextDocument
    );
    assert_eq!(
        stage.get_next(Some(valued(9))),
        GetNextResult::NeedsNextDocument
    );
}

#[test]
fn stats_skips_documents_without_integer_value() {
    let mut host = MockHost::new();
    host.load(valued(10));
    host.load(tagged(99));
    let mut text_doc = Document::new();
    text_doc.insert("value", Value::Text("not a number".to_string()));
    host.load(text_doc);
    host.load(valued(20));
    let mut stage = StatsStage::new();
    let (emitted, fin) = host.run(&mut stage);
    assert!(emitted.is_empty());
    let summary = fin.expect("a summary document is owed");
    assert_eq!(summary.get("count"), Some(&Value::Int(2)));
    assert_eq!(summary.get("sum"), Some(&Value::Int(30)));
    assert_eq!(summary.get("mean"), Some(&Value::Int(15)));
    assert_eq!(summary.get("min"), Some(&Value::Int(10)));
    assert_eq!(summary.get("max"), Some(&Value::Int(20)));
}

#[test]
fn stats_mean_rounds_toward_zero_for_negatives() {
    let mut host = MockHost::new();
    host.load(valued(-3));
    host.load(valued(-4));
    let mut stage = StatsStage::new();
    let (_, fin) = host.run(&mut stage);
    let summary = fin.expect("a summary document is owed");
    assert_eq!(summary.get("sum"), Some(&Value::Int(-7)));
    assert_eq!(summary.get("mean"), Some(&Value::Int(-3)));
    assert_eq!(summary.get("min"), Some(&Value::Int(-4)));
    assert_eq!(summary.get("max"), Some(&Value::Int(-3)));
}
