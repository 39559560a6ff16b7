use trace_bridge::codec::SpanContext;
use trace_bridge::span::{AttrValue, Pipeline};

fn parent() -> SpanContext {
    SpanContext { trace_id: 0x65dc50081561ed7046ffcbcb114af027, span_id: 0xb510129166d5a083, sampled: true }
}

#[test]
fn test_closed_span_links_to_parent() {
    let mut pipeline = Pipeline::new();
    let span = pipeline.open_span(b"detect-label".to_vec(), Some(parent()), 100);
    pipeline.close(span, 250);
    let drained = pipeline.flush_and_shutdown();
    assert_eq!(drained.len(), 1);
    assert_eq!(drained[0].parent_span_id, Some(parent().span_id));
    assert_eq!(drained[0].trace_id, parent().trace_id);
    assert!(drained[0].sampled);
    assert_eq!(drained[0].name, b"detect-label".to_vec());
    assert_eq!(drained[0].start_time, 100);
    assert_eq!(drained[0].end_time, 250);
}

#[test]
fn test_root_span_starts_fresh_trace() {
    let mut pipeline = Pipeline::new();
    let span = pipeline.open_span(b"root".to_vec(), None, 7);
    assert_eq!(span.parent_span_id, None);
    assert!(span.sampled);
    pipeline.close(span, 9);
    let drained = pipeline.flush_and_shutdown();
    assert_eq!(drained[0].parent_span_id, None);
}

#[test]
fn test_span_ids_are_unique() {
    let mut pipeline = Pipeline::new();
    let first = pipeline.open_span(b"a".to_vec(), Some(parent()), 1);
    let second = pipeline.open_span(b"b".to_vec(), Some(parent()), 2);
    assert_ne!(first.span_id, second.span_id);
    pipeline.close(first, 3);
    pipeline.close(second, 4);
    let drained = pipeline.flush_and_shutdown();
    assert_ne!(drained[0].span_id, drained[1].span_id);
}

#[test]
fn test_set_attribute_appends_then_replaces() {
    let mut pipeline = Pipeline::new();
    let mut span = pipeline.open_span(b"s".to_vec(), Some(parent()), 1);
    span.set_attribute(b"label_num".to_vec(), AttrValue::Int(3));
    span.set_attribute(b"kind".to_vec(), AttrValue::Str(b"client".to_vec()));
    span.set_attribute(b"label_num".to_vec(), AttrValue::Int(5));
    assert_eq!(span.attributes.len(), 2);
    assert_eq!(span.attributes[0].key, b"label_num".to_vec());
    assert_eq!(span.attributes[0].value, AttrValue::Int(5));
    assert_eq!(span.attributes[1].key, b"kind".to_vec());
    pipeline.close(span, 2);
    let drained = pipeline.flush_and_shutdown();
    assert_eq!(drained[0].attributes.len(), 2);
    assert_eq!(drained[0].attributes[0].value, AttrValue::Int(5));
}

#[test]
fn test_close_clamps_end_time() {
    let mut pipeline = Pipeline::new();
    let span = pipeline.open_span(b"s".to_vec(), Some(parent()), 100);
    pipeline.close(span, 40);
    let drained = pipeline.flush_and_shutdown();
    assert_eq!(drained[0].start_time, 100);
    assert_eq!(drained[0].end_time, 100);
    assert!(drained[0].end_time >= drained[0].start_time);
}

#[test]
fn test_second_flush_exports_nothing() {
    let mut pipeline = Pipeline::new();
    let span = pipeline.open_span(b"s".to_vec(), Some(parent()), 1);
    pipeline.close(span, 2);
    let first = pipeline.flush_and_shutdown();
    let second = pipeline.flush_and_shutdown();
    assert_eq!(first.len(), 1);
    assert_eq!(second.len(), 0);
}

#[test]
fn test_flush_drains_buffer_and_shuts_down() {
    let mut pipeline = Pipeline::new();
    let span = pipeline.open_span(b"s".to_vec(), Some(parent()), 1);
    pipeline.close(span, 2);
    assert_eq!(pipeline.buffer.len(), 1);
    assert!(!pipeline.shutdown);
    let drained = pipeline.flush_and_shutdown();
    assert_eq!(drained.len(), 1);
    assert_eq!(pipeline.buffer.len(), 0);
    assert!(pipeline.shutdown);
}
