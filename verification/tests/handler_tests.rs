use trace_bridge::codec::{decode, ParseError};
use trace_bridge::handler::{
    begin_detection, finish_detection, finish_invocation, prepare_invocation,
    retrieve_arguments_from_event, DetectLabelArguments, DetectionError, EventError, EventRecord,
    HandlerError, StorageEvent,
};
use trace_bridge::span::{AttrValue, Pipeline, SpanRecord};

const HEADER: &str =
    "Root=1-65dc5008-1561ed7046ffcbcb114af027;Parent=b510129166d5a083;Sampled=1;Lineage=f98dd9ff:0";

fn setup_test_event() -> StorageEvent {
    StorageEvent {
        records: vec![EventRecord {
            bucket_name: Some(b"DOC-EXAMPLE-BUCKET".to_vec()),
            object_key: Some(b"b21b84d653bb07b05b1e6b33684dc11b".to_vec()),
        }],
    }
}

#[test]
fn test_retrieve_arguments_from_event() {
    let event = setup_test_event();
    let result = retrieve_arguments_from_event(&event);
    let expected = DetectLabelArguments {
        bucket: b"DOC-EXAMPLE-BUCKET".to_vec(),
        name: b"b21b84d653bb07b05b1e6b33684dc11b".to_vec(),
    };
    match result {
        Ok(actual) => assert_eq!(actual, expected),
        Err(e) => panic!("Failed: {:?}", e),
    }
}

#[test]
fn test_detect_labels() {
    let event = setup_test_event();
    let mut pipeline = Pipeline::new();
    let (parent_context, _argument) =
        prepare_invocation(HEADER.as_bytes(), &event).expect("prepared");
    let span = begin_detection(&mut pipeline, &parent_context, 10);
    let outcome: Result<Vec<Vec<u8>>, DetectionError> = Ok(vec![b"landscape".to_vec()]);
    let (otel_spans, actual) = finish_invocation(&mut pipeline, span, outcome, 20);
    assert!(actual.is_ok());
    assert_eq!(actual.unwrap(), vec![b"landscape".to_vec()]);
    assert_eq!(
        otel_spans.iter().map(|span| span.parent_span_id).collect::<Vec<Option<u64>>>(),
        vec![Some(parent_context.span_id)]
    );
    assert_eq!(otel_spans[0].attributes[0].key, b"label_num".to_vec());
    assert_eq!(otel_spans[0].attributes[0].value, AttrValue::Int(1));
}

#[test]
fn test_detect_labels_none_reported() {
    let mut pipeline = Pipeline::new();
    let parent_context = decode(HEADER.as_bytes()).unwrap();
    let span = begin_detection(&mut pipeline, &parent_context, 10);
    let outcome: Result<Vec<Vec<u8>>, DetectionError> = Ok(vec![]);
    let (otel_spans, actual) = finish_invocation(&mut pipeline, span, outcome, 20);
    assert_eq!(actual.unwrap(), Vec::<Vec<u8>>::new());
    assert_eq!(otel_spans[0].attributes[0].key, b"label_num".to_vec());
    assert_eq!(otel_spans[0].attributes[0].value, AttrValue::Int(0));
}

#[test]
fn test_detection_failure_still_flushes_one_span() {
    let mut pipeline = Pipeline::new();
    let parent_context = decode(HEADER.as_bytes()).unwrap();
    let span = begin_detection(&mut pipeline, &parent_context, 10);
    let outcome: Result<Vec<Vec<u8>>, DetectionError> =
        Err(DetectionError { message: b"service unavailable".to_vec() });
    let (otel_spans, actual) = finish_invocation(&mut pipeline, span, outcome, 20);
    match actual {
        Err(HandlerError::Detection(e)) => {
            assert_eq!(e.message, b"service unavailable".to_vec())
        },
        other => panic!("unexpected result: {:?}", other),
    }
    assert_eq!(otel_spans.len(), 1);
    assert_eq!(otel_spans[0].parent_span_id, Some(parent_context.span_id));
    assert_eq!(otel_spans[0].attributes[0].key, b"error".to_vec());
    assert_eq!(
        otel_spans[0].attributes[0].value,
        AttrValue::Str(b"service unavailable".to_vec())
    );
    assert!(pipeline.buffer.is_empty());
    assert!(pipeline.shutdown);
}

#[test]
fn test_trace_id_in_async_function_call() {
    let mut pipeline = Pipeline::new();
    let parent_context = decode(HEADER.as_bytes()).unwrap();
    let expected_trace_id = parent_context.trace_id;
    let span = begin_detection(&mut pipeline, &parent_context, 1);
    let actual_trace_id = span.trace_id;
    assert_eq!(expected_trace_id, actual_trace_id);
    pipeline.close(span, 2);
}

#[test]
fn test_concurrent_invocations_do_not_cross_link() {
    let header_a = HEADER;
    let header_b =
        "Root=1-0af76519-16cd43dd8448eb211c80319c;Parent=00f067aa0ba902b7;Sampled=0";
    let run = |header: &str| -> (u64, Vec<SpanRecord>) {
        let mut pipeline = Pipeline::new();
        let parent = decode(header.as_bytes()).unwrap();
        let span = begin_detection(&mut pipeline, &parent, 5);
        let outcome: Result<Vec<Vec<u8>>, DetectionError> = Ok(vec![b"landscape".to_vec()]);
        let (records, _result) = finish_invocation(&mut pipeline, span, outcome, 6);
        (parent.span_id, records)
    };
    let (parent_a, records_a) = run(header_a);
    let (parent_b, records_b) = run(header_b);
    assert_ne!(parent_a, parent_b);
    for record in &records_a {
        assert_eq!(record.parent_span_id, Some(parent_a));
        assert_ne!(record.parent_span_id, Some(parent_b));
    }
    for record in &records_b {
        assert_eq!(record.parent_span_id, Some(parent_b));
        assert_ne!(record.parent_span_id, Some(parent_a));
    }
}

#[test]
fn test_prepare_invocation_bad_header_short_circuits() {
    let event = setup_test_event();
    let r = prepare_invocation(b"Parent=b510129166d5a083;Sampled=1", &event);
    match r {
        Err(HandlerError::Header(ParseError::MissingField)) => {},
        other => panic!("unexpected result: {:?}", other),
    }
}

#[test]
fn test_prepare_invocation_empty_event() {
    let event = StorageEvent { records: vec![] };
    let r = prepare_invocation(HEADER.as_bytes(), &event);
    match r {
        Err(HandlerError::Event(EventError::NoRecord)) => {},
        other => panic!("unexpected result: {:?}", other),
    }
}

#[test]
fn test_retrieve_missing_bucket_name() {
    let event = StorageEvent {
        records: vec![EventRecord { bucket_name: None, object_key: Some(b"k".to_vec()) }],
    };
    assert_eq!(retrieve_arguments_from_event(&event), Err(EventError::NoBucketName));
}

#[test]
fn test_retrieve_missing_object_key() {
    let event = StorageEvent {
        records: vec![EventRecord { bucket_name: Some(b"b".to_vec()), object_key: None }],
    };
    assert_eq!(retrieve_arguments_from_event(&event), Err(EventError::NoObjectName));
}
