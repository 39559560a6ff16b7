//! The per-invocation state machine: extract the labeling arguments from
//! the inbound event, decode the propagated trace header, open the labeling
//! span under that parent, record the outcome of the labeling call, and
//! drain the telemetry buffer before the host may suspend the process.
//!
//! The labeling call itself is the caller's I/O: the caller opens the span
//! with [`begin_detection`], performs the call, and hands the outcome to
//! [`finish_invocation`], which is verified for every possible outcome.

use vstd::prelude::*;

use crate::codec::{decode, spec_decode, ParseError, SpanContext};
use crate::span::{
    set_attr_entries, spec_close, spec_flush, spec_new_pipeline, spec_open, AttrModel, AttrValue,
    Pipeline, PipelineModel, RecordModel, Span, SpanModel, SpanRecord,
};

verus! {

/// One record of the inbound storage event; a malformed event may lack the
/// bucket name or the object key.
#[derive(Debug)]
pub struct EventRecord {
    pub bucket_name: Option<Vec<u8>>,
    pub object_key: Option<Vec<u8>>,
}

/// The mathematical value of an [`EventRecord`].
#[verifier::ext_equal]
pub struct EventRecordModel {
    pub bucket_name: Option<Seq<u8>>,
    pub object_key: Option<Seq<u8>>,
}

impl View for EventRecord {
    type V = EventRecordModel;

    open spec fn view(&self) -> EventRecordModel {
        EventRecordModel {
            bucket_name: match self.bucket_name {
                Option::Some(b) => Option::Some(b@),
                Option::None => Option::None,
            },
            object_key: match self.object_key {
                Option::Some(k) => Option::Some(k@),
                Option::None => Option::None,
            },
        }
    }
}

/// The inbound event envelope, reduced to the records the core needs.
#[derive(Debug)]
pub struct StorageEvent {
    pub records: Vec<EventRecord>,
}

/// The mathematical value of a [`StorageEvent`].
#[verifier::ext_equal]
pub struct StorageEventModel {
    pub records: Seq<EventRecordModel>,
}

impl View for StorageEvent {
    type V = StorageEventModel;

    open spec fn view(&self) -> StorageEventModel {
        StorageEventModel { records: self.records@.map_values(|r: EventRecord| r@) }
    }
}

/// Why argument extraction from the event failed.
#[derive(Clone, Copy, Debug, PartialEq, Eq, Structural)]
pub enum EventError {
    /// The event holds no record at all.
    NoRecord,
    /// The first record has no bucket name.
    NoBucketName,
    /// The first record has no object key.
    NoObjectName,
}

/// The pair of arguments the labeling service needs.
#[derive(Debug, PartialEq, Eq)]
pub struct DetectLabelArguments {
    pub bucket: Vec<u8>,
    pub name: Vec<u8>,
}

/// A failure of the external labeling service, as the core sees it.
#[derive(Debug, PartialEq, Eq)]
pub struct DetectionError {
    pub message: Vec<u8>,
}

/// Why an invocation failed.
#[derive(Debug, PartialEq, Eq)]
pub enum HandlerError {
    /// The trace header was malformed; fatal before any span is opened.
    Header(ParseError),
    /// The event yielded no (bucket, key) pair; fatal before any span.
    Event(EventError),
    /// The labeling service failed; the span was still closed and flushed.
    Detection(DetectionError),
}

/// What argument extraction returns for every event: the first record's
/// bucket name and object key, or the error naming the first missing part.
pub open spec fn spec_retrieve(event: StorageEventModel) -> Result<(Seq<u8>, Seq<u8>), EventError> {
    if event.records.len() == 0 {
        Result::Err(EventError::NoRecord)
    } else {
        match event.records[0].bucket_name {
            Option::None => Result::Err(EventError::NoBucketName),
            Option::Some(bucket) => match event.records[0].object_key {
                Option::None => Result::Err(EventError::NoObjectName),
                Option::Some(key) => Result::Ok((bucket, key)),
            },
        }
    }
}

/// Extracts the labeling arguments from the inbound event.
pub fn retrieve_arguments_from_event(event: &StorageEvent) -> (r: Result<
    DetectLabelArguments,
    EventError,
>)
    ensures
        match r {
            Result::Ok(args) => spec_retrieve(event@) == Result::<_, EventError>::Ok(
                (args.bucket@, args.name@),
            ),
            Result::Err(e) => spec_retrieve(event@) == Result::<(Seq<u8>, Seq<u8>), _>::Err(e),
        },
{
    if event.records.len() == 0 {
        return Err(EventError::NoRecord);
    }
    let record = &event.records[0];
    proof {
        assert(event@.records[0] == record@);
    }
    let bucket = match &record.bucket_name {
        Option::None => {
            return Err(EventError::NoBucketName);
        },
        Option::Some(b) => vstd::slice::slice_to_vec(b.as_slice()),
    };
    let name = match &record.object_key {
        Option::None => {
            return Err(EventError::NoObjectName);
        },
        Option::Some(k) => vstd::slice::slice_to_vec(k.as_slice()),
    };
    Ok(DetectLabelArguments { bucket, name })
}

/// The name of the span wrapping the labeling call: `detect-label`.
pub open spec fn detect_span_name() -> Seq<u8> {
    seq![100u8, 101u8, 116u8, 101u8, 99u8, 116u8, 45u8, 108u8, 97u8, 98u8, 101u8, 108u8]
}

/// The attribute key `label_num`.
pub open spec fn label_num_key() -> Seq<u8> {
    seq![108u8, 97u8, 98u8, 101u8, 108u8, 95u8, 110u8, 117u8, 109u8]
}

/// The attribute key `error`.
pub open spec fn error_key() -> Seq<u8> {
    seq![101u8, 114u8, 114u8, 111u8, 114u8]
}

fn detect_span_name_bytes() -> (r: Vec<u8>)
    ensures
        r@ == detect_span_name(),
{
    let mut r: Vec<u8> = Vec::new();
    r.push(100);
    r.push(101);
    r.push(116);
    r.push(101);
    r.push(99);
    r.push(116);
    r.push(45);
    r.push(108);
    r.push(97);
    r.push(98);
    r.push(101);
    r.push(108);
    proof {
        assert(r@ =~= detect_span_name());
    }
    r
}

fn label_num_key_bytes() -> (r: Vec<u8>)
    ensures
        r@ == label_num_key(),
{
    let mut r: Vec<u8> = Vec::new();
    r.push(108);
    r.push(97);
    r.push(98);
    r.push(101);
    r.push(108);
    r.push(95);
    r.push(110);
    r.push(117);
    r.push(109);
    proof {
        assert(r@ =~= label_num_key());
    }
    r
}

fn error_key_bytes() -> (r: Vec<u8>)
    ensures
        r@ == error_key(),
{
    let mut r: Vec<u8> = Vec::new();
    r.push(101);
    r.push(114);
    r.push(114);
    r.push(111);
    r.push(114);
    proof {
        assert(r@ =~= error_key());
    }
    r
}

/// The views of a list of labels.
pub open spec fn labels_view(labels: Seq<Vec<u8>>) -> Seq<Seq<u8>> {
    labels.map_values(|l: Vec<u8>| l@)
}

/// The mathematical value of a labeling-call outcome: the labels, or the
/// failure message.
pub open spec fn outcome_view(outcome: Result<Vec<Vec<u8>>, DetectionError>) -> Result<
    Seq<Seq<u8>>,
    Seq<u8>,
> {
    match outcome {
        Result::Ok(labels) => Result::Ok(labels_view(labels@)),
        Result::Err(e) => Result::Err(e.message@),
    }
}

/// What the trace header and the event must yield before any span is
/// opened; the first failure wins, the header being read first.
pub open spec fn spec_prepare(header: Seq<u8>, event: StorageEventModel) -> Result<
    (SpanContext, Seq<u8>, Seq<u8>),
    HandlerError,
> {
    match spec_decode(header) {
        Result::Err(pe) => Result::Err(HandlerError::Header(pe)),
        Result::Ok(ctx) => match spec_retrieve(event) {
            Result::Err(ee) => Result::Err(HandlerError::Event(ee)),
            Result::Ok(pair) => Result::Ok((ctx, pair.0, pair.1)),
        },
    }
}

/// Decodes the trace header and extracts the labeling arguments. Both must
/// succeed before any span is opened, so a failure here short-circuits the
/// invocation with nothing buffered and nothing to flush.
pub fn prepare_invocation(header: &[u8], event: &StorageEvent) -> (r: Result<
    (SpanContext, DetectLabelArguments),
    HandlerError,
>)
    ensures
        match r {
            Result::Ok(p) => spec_prepare(header@, event@) == Result::<_, HandlerError>::Ok(
                (p.0, p.1.bucket@, p.1.name@),
            ),
            Result::Err(e) => spec_prepare(header@, event@) == Result::<
                (SpanContext, Seq<u8>, Seq<u8>),
                _,
            >::Err(e),
        },
{
    let ctx = match decode(header) {
        Result::Err(e) => {
            return Err(HandlerError::Header(e));
        },
        Result::Ok(c) => c,
    };
    let args = match retrieve_arguments_from_event(event) {
        Result::Err(e) => {
            return Err(HandlerError::Event(e));
        },
        Result::Ok(a) => a,
    };
    Ok((ctx, args))
}

/// Opens the labeling span as a child of the propagated parent context.
pub fn begin_detection(pipeline: &mut Pipeline, parent: &SpanContext, now: u64) -> (span: Span)
    requires
        !old(pipeline)@.shutdown,
        old(pipeline)@.next_span_id < u64::MAX,
    ensures
        final(pipeline)@ == spec_open(old(pipeline)@, detect_span_name(), Some(*parent), now).0,
        span@ == spec_open(old(pipeline)@, detect_span_name(), Some(*parent), now).1,
        old(pipeline)@.wf() ==> final(pipeline)@.wf() && span@.fresh_for(final(pipeline)@),
{
    let name = detect_span_name_bytes();
    pipeline.open_span(name, Some(*parent), now)
}

/// The pipeline after the labeling span is closed with its outcome: a
/// success stores `label_num`, the number of returned labels (zero when the
/// service reported none); a failure stores the message under `error`.
/// Either way the span is closed into the export buffer.
pub open spec fn spec_finish_detection(
    p: PipelineModel,
    span: SpanModel,
    outcome: Result<Seq<Seq<u8>>, Seq<u8>>,
    now: u64,
) -> PipelineModel {
    let attributed = match outcome {
        Result::Ok(labels) => SpanModel {
            attrs: set_attr_entries(span.attrs, label_num_key(), AttrModel::Int(labels.len() as i64)),
            ..span
        },
        Result::Err(message) => SpanModel {
            attrs: set_attr_entries(span.attrs, error_key(), AttrModel::Str(message)),
            ..span
        },
    };
    spec_close(p, attributed, now)
}

/// Records the outcome of the labeling call on the span and closes the span
/// into the export buffer — also on failure, so no open span is ever
/// leaked. The outcome itself passes through unchanged.
pub fn finish_detection(
    pipeline: &mut Pipeline,
    span: Span,
    outcome: Result<Vec<Vec<u8>>, DetectionError>,
    now: u64,
) -> (r: Result<Vec<Vec<u8>>, DetectionError>)
    requires
        !old(pipeline)@.shutdown,
        outcome matches Ok(labels) ==> labels@.len() <= i64::MAX,
    ensures
        final(pipeline)@ == spec_finish_detection(old(pipeline)@, span@, outcome_view(outcome), now),
        r == outcome,
        old(pipeline)@.wf() && span@.fresh_for(old(pipeline)@) ==> final(pipeline)@.wf(),
{
    let mut span = span;
    match &outcome {
        Result::Ok(labels) => {
            let n = labels.len();
            span.set_attribute(label_num_key_bytes(), AttrValue::Int(n as i64));
        },
        Result::Err(e) => {
            let message = vstd::slice::slice_to_vec(e.message.as_slice());
            span.set_attribute(error_key_bytes(), AttrValue::Str(message));
        },
    }
    pipeline.close(span, now);
    outcome
}

/// The end of an invocation: the span closed with its outcome, then the
/// whole buffer drained and the pipeline torn down.
pub open spec fn spec_finish_invocation(
    p: PipelineModel,
    span: SpanModel,
    outcome: Result<Seq<Seq<u8>>, Seq<u8>>,
    now: u64,
) -> (PipelineModel, Seq<RecordModel>) {
    spec_flush(spec_finish_detection(p, span, outcome, now))
}

/// Ends the invocation after the labeling call: the span is closed whatever
/// the outcome, and the buffer is drained and the pipeline torn down before
/// the host may suspend the process. A business failure never skips the
/// flush, and a sink failure (the caller's I/O on the drained records)
/// never becomes an operation error.
pub fn finish_invocation(
    pipeline: &mut Pipeline,
    span: Span,
    outcome: Result<Vec<Vec<u8>>, DetectionError>,
    now: u64,
) -> (r: (Vec<SpanRecord>, Result<Vec<Vec<u8>>, HandlerError>))
    requires
        !old(pipeline)@.shutdown,
        outcome matches Ok(labels) ==> labels@.len() <= i64::MAX,
    ensures
        final(pipeline)@ == spec_finish_invocation(
            old(pipeline)@,
            span@,
            outcome_view(outcome),
            now,
        ).0,
        crate::span::records_view(r.0@) == spec_finish_invocation(
            old(pipeline)@,
            span@,
            outcome_view(outcome),
            now,
        ).1,
        outcome matches Ok(labels) ==> r.1 == Result::<_, HandlerError>::Ok(labels),
        outcome matches Err(e) ==> r.1 == Result::<Vec<Vec<u8>>, _>::Err(
            HandlerError::Detection(e),
        ),
{
    let result = finish_detection(pipeline, span, outcome, now);
    let drained = pipeline.flush_and_shutdown();
    let mapped = match result {
        Result::Ok(labels) => Ok(labels),
        Result::Err(e) => Err(HandlerError::Detection(e)),
    };
    (drained, mapped)
}

/// Law: a failure of the labeling call still results in exactly one span
/// being closed and flushed — the drained batch grows by exactly one
/// record, that record links to the parent and carries the failure message
/// under `error`, and nothing stays buffered after the shutdown.
pub proof fn lemma_failure_flushes_one_span(
    p: PipelineModel,
    parent: SpanContext,
    message: Seq<u8>,
    t_open: u64,
    t_close: u64,
)
    ensures
        ({
            let (p1, span) = spec_open(p, detect_span_name(), Some(parent), t_open);
            let (p2, drained) = spec_finish_invocation(p1, span, Result::Err(message), t_close);
            &&& drained.len() == p.buffer.len() + 1
            &&& drained.last().parent_span_id == Some(parent.span_id)
            &&& drained.last().trace_id == parent.trace_id
            &&& crate::span::attr_lookup(drained.last().attrs, error_key()) == Some(
                AttrModel::Str(message),
            )
            &&& p2.buffer.len() == 0
            &&& p2.shutdown
        }),
{
    let (p1, span) = spec_open(p, detect_span_name(), Some(parent), t_open);
    crate::span::lemma_set_attr_entries(span.attrs, error_key(), AttrModel::Str(message));
}

/// Law: invocations run concurrently in separate process instances never
/// cross-link — every record flushed by an invocation whose pipeline was
/// freshly initialized and whose span was opened under one parent context
/// carries exactly that parent's span id and trace id, so it can never
/// carry the parent span id of an invocation with a distinct parent.
pub proof fn lemma_no_cross_linking(
    parent_a: SpanContext,
    parent_b: SpanContext,
    outcome: Result<Seq<Seq<u8>>, Seq<u8>>,
    t_open: u64,
    t_close: u64,
)
    requires
        parent_a.span_id != parent_b.span_id,
    ensures
        ({
            let (p1, span) = spec_open(
                spec_new_pipeline(),
                detect_span_name(),
                Some(parent_a),
                t_open,
            );
            let (p2, drained) = spec_finish_invocation(p1, span, outcome, t_close);
            forall|i: int|
                0 <= i < drained.len() ==> (#[trigger] drained[i]).parent_span_id == Some(
                    parent_a.span_id,
                ) && drained[i].trace_id == parent_a.trace_id && drained[i].parent_span_id
                    != Some(parent_b.span_id)
        }),
{
}

} // verus!
