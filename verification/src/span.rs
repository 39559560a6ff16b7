//! Span lifecycle management: opening spans under a propagated parent
//! context, attaching attributes, closing each span exactly once into the
//! export buffer, and draining that buffer before the host may suspend the
//! process.
//!
//! A [`Span`] is a handle owned by the caller; closing it hands it to the
//! [`Pipeline`] by value, so a second close or a mutation after close is a
//! compile-time error rather than a silent corruption of the buffer.

use vstd::prelude::*;

use crate::codec::SpanContext;

verus! {

/// An attribute value attached to a span: string, integer or boolean.
#[derive(Clone, Debug, PartialEq, Eq)]
pub enum AttrValue {
    Str(Vec<u8>),
    Int(i64),
    Bool(bool),
}

/// The mathematical value of an [`AttrValue`].
#[verifier::ext_equal]
pub enum AttrModel {
    Str(Seq<u8>),
    Int(i64),
    Bool(bool),
}

impl View for AttrValue {
    type V = AttrModel;

    open spec fn view(&self) -> AttrModel {
        match self {
            AttrValue::Str(s) => AttrModel::Str(s@),
            AttrValue::Int(v) => AttrModel::Int(*v),
            AttrValue::Bool(v) => AttrModel::Bool(*v),
        }
    }
}

/// One key/value pair of a span's metadata.
#[derive(Clone, Debug, PartialEq, Eq)]
pub struct Attribute {
    pub key: Vec<u8>,
    pub value: AttrValue,
}

/// The mathematical value of an [`Attribute`].
#[verifier::ext_equal]
pub struct AttrEntry {
    pub key: Seq<u8>,
    pub value: AttrModel,
}

impl View for Attribute {
    type V = AttrEntry;

    open spec fn view(&self) -> AttrEntry {
        AttrEntry { key: self.key@, value: self.value@ }
    }
}

pub open spec fn attrs_view(attrs: Seq<Attribute>) -> Seq<AttrEntry> {
    attrs.map_values(|a: Attribute| a@)
}

/// Attribute keys are unique within one span.
pub open spec fn keys_unique(attrs: Seq<AttrEntry>) -> bool {
    forall|i: int, j: int|
        0 <= i < j < attrs.len() ==> (#[trigger] attrs[i]).key != (#[trigger] attrs[j]).key
}

/// The value stored under `key`, if any.
pub open spec fn attr_lookup(attrs: Seq<AttrEntry>, key: Seq<u8>) -> Option<AttrModel>
    decreases attrs.len(),
{
    if attrs.len() == 0 {
        Option::None
    } else if attrs[0].key == key {
        Option::Some(attrs[0].value)
    } else {
        attr_lookup(attrs.drop_first(), key)
    }
}

/// Attributes after setting `key` to `value`: the first entry with that key
/// is replaced in place, keeping insertion order; a new key is appended.
pub open spec fn set_attr_entries(attrs: Seq<AttrEntry>, key: Seq<u8>, value: AttrModel) -> Seq<
    AttrEntry,
>
    decreases attrs.len(),
{
    if attrs.len() == 0 {
        seq![AttrEntry { key, value }]
    } else if attrs[0].key == key {
        seq![AttrEntry { key, value }] + attrs.drop_first()
    } else {
        seq![attrs[0]] + set_attr_entries(attrs.drop_first(), key, value)
    }
}

/// Law: setting an attribute stores exactly that value under its key, leaves
/// every other key unchanged, and keeps keys unique.
pub proof fn lemma_set_attr_entries(attrs: Seq<AttrEntry>, key: Seq<u8>, value: AttrModel)
    ensures
        attr_lookup(set_attr_entries(attrs, key, value), key) == Option::Some(value),
        forall|k2: Seq<u8>|
            k2 != key ==> #[trigger] attr_lookup(set_attr_entries(attrs, key, value), k2)
                == attr_lookup(attrs, k2),
        keys_unique(attrs) ==> keys_unique(set_attr_entries(attrs, key, value)),
    decreases attrs.len(),
{
    let out = set_attr_entries(attrs, key, value);
    if attrs.len() == 0 {
        assert forall|k2: Seq<u8>| k2 != key implies #[trigger] attr_lookup(out, k2)
            == attr_lookup(attrs, k2) by {
            assert(out.len() == 1 && out[0] == AttrEntry { key, value });
            assert(attr_lookup(out, k2) == attr_lookup(out.drop_first(), k2));
            assert(out.drop_first().len() == 0);
            assert(attr_lookup(out.drop_first(), k2) is None);
            assert(attr_lookup(attrs, k2) is None);
        }
    } else if attrs[0].key == key {
        assert(out.drop_first() =~= attrs.drop_first());
        assert forall|k2: Seq<u8>| k2 != key implies #[trigger] attr_lookup(out, k2)
            == attr_lookup(attrs, k2) by {
            assert(attr_lookup(out, k2) == attr_lookup(out.drop_first(), k2));
        }
        if keys_unique(attrs) {
            assert forall|i: int, j: int| 0 <= i < j < out.len() implies (#[trigger] out[i]).key
                != (#[trigger] out[j]).key by {
                assert(out[i] == attrs[i] || i == 0);
                assert(out[j] == attrs[j]);
            }
        }
    } else {
        lemma_set_attr_entries(attrs.drop_first(), key, value);
        let sub = set_attr_entries(attrs.drop_first(), key, value);
        assert(out.drop_first() =~= sub);
        assert forall|k2: Seq<u8>| k2 != key implies #[trigger] attr_lookup(out, k2)
            == attr_lookup(attrs, k2) by {
            if attrs[0].key == k2 {
            } else {
                assert(attr_lookup(out, k2) == attr_lookup(sub, k2));
                assert(attr_lookup(attrs, k2) == attr_lookup(attrs.drop_first(), k2));
            }
        }
        if keys_unique(attrs) {
            assert(keys_unique(attrs.drop_first())) by {
                assert(forall|i: int, j: int|
                    0 <= i < j < attrs.drop_first().len() ==> attrs.drop_first()[i]
                        == attrs[i + 1] && attrs.drop_first()[j] == attrs[j + 1]);
            }
            lemma_set_attr_key_set(attrs.drop_first(), key, value);
            assert forall|i: int, j: int| 0 <= i < j < out.len() implies (#[trigger] out[i]).key
                != (#[trigger] out[j]).key by {
                if i == 0 {
                    assert(out[j] == sub[j - 1]);
                    if sub[j - 1].key == attrs[0].key {
                        assert(attr_lookup(attrs.drop_first(), attrs[0].key) is None ==> false)
                        by {
                            lemma_lookup_some_of_contains(sub, attrs[0].key, j - 1);
                            assert(attr_lookup(sub, attrs[0].key) == attr_lookup(
                                attrs.drop_first(),
                                attrs[0].key,
                            ));
                        }
                        lemma_unique_no_first_key(attrs);
                    }
                } else {
                    assert(out[i] == sub[i - 1] && out[j] == sub[j - 1]);
                }
            }
        }
    }
}

/// In a key-unique attribute list the first entry's key occurs nowhere else,
/// so looking it up in the remainder finds nothing.
proof fn lemma_unique_no_first_key(attrs: Seq<AttrEntry>)
    requires
        attrs.len() > 0,
        keys_unique(attrs),
    ensures
        attr_lookup(attrs.drop_first(), attrs[0].key) is None,
{
    lemma_lookup_none_of_absent(attrs.drop_first(), attrs[0].key);
}

/// A key under which something is stored occurs in the list.
proof fn lemma_lookup_some_of_contains(attrs: Seq<AttrEntry>, key: Seq<u8>, i: int)
    requires
        0 <= i < attrs.len(),
        attrs[i].key == key,
    ensures
        attr_lookup(attrs, key) is Some,
    decreases attrs.len(),
{
    if attrs[0].key == key {
    } else {
        lemma_lookup_some_of_contains(attrs.drop_first(), key, i - 1);
    }
}

/// A key that occurs nowhere in the list has no stored value.
proof fn lemma_lookup_none_of_absent(attrs: Seq<AttrEntry>, key: Seq<u8>)
    requires
        forall|i: int| 0 <= i < attrs.len() ==> (#[trigger] attrs[i]).key != key,
    ensures
        attr_lookup(attrs, key) is None,
    decreases attrs.len(),
{
    if attrs.len() > 0 {
        lemma_lookup_none_of_absent(attrs.drop_first(), key);
    }
}

/// Every key of the updated list is an old key or the set key.
proof fn lemma_set_attr_key_set(attrs: Seq<AttrEntry>, key: Seq<u8>, value: AttrModel)
    ensures
        forall|i: int|
            0 <= i < set_attr_entries(attrs, key, value).len()
                ==> (#[trigger] set_attr_entries(attrs, key, value)[i]).key == key || exists|j: int|
                0 <= j < attrs.len() && (#[trigger] attrs[j]).key == set_attr_entries(
                    attrs,
                    key,
                    value,
                )[i].key,
    decreases attrs.len(),
{
    let out = set_attr_entries(attrs, key, value);
    if attrs.len() == 0 {
    } else if attrs[0].key == key {
        assert forall|i: int| 0 <= i < out.len() implies (#[trigger] out[i]).key == key || exists|
            j: int,
        | 0 <= j < attrs.len() && (#[trigger] attrs[j]).key == out[i].key by {
            if i > 0 {
                assert(attrs[i].key == out[i].key);
            }
        }
    } else {
        lemma_set_attr_key_set(attrs.drop_first(), key, value);
        let sub = set_attr_entries(attrs.drop_first(), key, value);
        assert forall|i: int| 0 <= i < out.len() implies (#[trigger] out[i]).key == key || exists|
            j: int,
        | 0 <= j < attrs.len() && (#[trigger] attrs[j]).key == out[i].key by {
            if i == 0 {
                assert(attrs[0].key == out[0].key);
            } else {
                assert(out[i] == sub[i - 1]);
                if sub[i - 1].key != key {
                    let tail = attrs.drop_first();
                    let j = choose|j: int|
                        0 <= j < tail.len() && (#[trigger] tail[j]).key == sub[i - 1].key;
                    assert(attrs[j + 1].key == out[i].key);
                }
            }
        }
    }
}

/// A named, timed unit of work that is still open. It owns its span id,
/// references its parent only through the recorded ids, and must eventually
/// be handed back to [`Pipeline::close`].
#[derive(Debug)]
pub struct Span {
    pub trace_id: u128,
    pub span_id: u64,
    pub parent_span_id: Option<u64>,
    pub sampled: bool,
    pub name: Vec<u8>,
    pub start_time: u64,
    pub attributes: Vec<Attribute>,
}

/// The mathematical value of a [`Span`].
#[verifier::ext_equal]
pub struct SpanModel {
    pub trace_id: u128,
    pub span_id: u64,
    pub parent_span_id: Option<u64>,
    pub sampled: bool,
    pub name: Seq<u8>,
    pub start_time: u64,
    pub attrs: Seq<AttrEntry>,
}

impl View for Span {
    type V = SpanModel;

    open spec fn view(&self) -> SpanModel {
        SpanModel {
            trace_id: self.trace_id,
            span_id: self.span_id,
            parent_span_id: self.parent_span_id,
            sampled: self.sampled,
            name: self.name@,
            start_time: self.start_time,
            attrs: attrs_view(self.attributes@),
        }
    }
}

/// A closed span as it sits in the export buffer, ready for the telemetry
/// sink: identifiers, name, start and end time, and the final attributes.
#[derive(Debug)]
pub struct SpanRecord {
    pub trace_id: u128,
    pub span_id: u64,
    pub parent_span_id: Option<u64>,
    pub sampled: bool,
    pub name: Vec<u8>,
    pub start_time: u64,
    pub end_time: u64,
    pub attributes: Vec<Attribute>,
}

/// The mathematical value of a [`SpanRecord`].
#[verifier::ext_equal]
pub struct RecordModel {
    pub trace_id: u128,
    pub span_id: u64,
    pub parent_span_id: Option<u64>,
    pub sampled: bool,
    pub name: Seq<u8>,
    pub start_time: u64,
    pub end_time: u64,
    pub attrs: Seq<AttrEntry>,
}

impl View for SpanRecord {
    type V = RecordModel;

    open spec fn view(&self) -> RecordModel {
        RecordModel {
            trace_id: self.trace_id,
            span_id: self.span_id,
            parent_span_id: self.parent_span_id,
            sampled: self.sampled,
            name: self.name@,
            start_time: self.start_time,
            end_time: self.end_time,
            attrs: attrs_view(self.attributes@),
        }
    }
}

pub open spec fn records_view(records: Seq<SpanRecord>) -> Seq<RecordModel> {
    records.map_values(|r: SpanRecord| r@)
}

/// The process-wide exporter state: the buffer of closed, not yet exported
/// spans, the id counters, and whether the pipeline was torn down. Owned
/// explicitly and passed by reference, never ambient.
#[derive(Debug)]
pub struct Pipeline {
    pub buffer: Vec<SpanRecord>,
    pub next_span_id: u64,
    pub next_trace_id: u128,
    pub shutdown: bool,
}

/// The mathematical value of a [`Pipeline`].
#[verifier::ext_equal]
pub struct PipelineModel {
    pub buffer: Seq<RecordModel>,
    pub next_span_id: u64,
    pub next_trace_id: u128,
    pub shutdown: bool,
}

impl View for Pipeline {
    type V = PipelineModel;

    open spec fn view(&self) -> PipelineModel {
        PipelineModel {
            buffer: records_view(self.buffer@),
            next_span_id: self.next_span_id,
            next_trace_id: self.next_trace_id,
            shutdown: self.shutdown,
        }
    }
}

impl PipelineModel {
    /// Well-formedness: ids are issued from a counter, so every buffered
    /// span id is nonzero, below the counter, and unique in the buffer.
    pub open spec fn wf(self) -> bool {
        &&& 1 <= self.next_span_id
        &&& 1 <= self.next_trace_id
        &&& forall|i: int|
            0 <= i < self.buffer.len() ==> 1 <= (#[trigger] self.buffer[i]).span_id
                < self.next_span_id
        &&& forall|i: int, j: int|
            0 <= i < j < self.buffer.len() ==> (#[trigger] self.buffer[i]).span_id
                != (#[trigger] self.buffer[j]).span_id
    }
}

impl SpanModel {
    /// An open span whose id was issued by `p` and is not yet buffered.
    pub open spec fn fresh_for(self, p: PipelineModel) -> bool {
        &&& 1 <= self.span_id < p.next_span_id
        &&& forall|i: int| 0 <= i < p.buffer.len() ==> (#[trigger] p.buffer[i]).span_id != self.span_id
    }
}

/// A freshly initialized pipeline: empty buffer, counters at one, running.
pub open spec fn spec_new_pipeline() -> PipelineModel {
    PipelineModel { buffer: Seq::empty(), next_span_id: 1, next_trace_id: 1, shutdown: false }
}

/// Opening a span: under a supplied parent context the new span joins the
/// parent's trace and records the parent's span id; with no parent it roots
/// a fresh trace. Either way it takes the next local span id.
pub open spec fn spec_open(
    p: PipelineModel,
    name: Seq<u8>,
    parent: Option<SpanContext>,
    now: u64,
) -> (PipelineModel, SpanModel) {
    let span = SpanModel {
        trace_id: match parent {
            Option::Some(c) => c.trace_id,
            Option::None => p.next_trace_id,
        },
        span_id: p.next_span_id,
        parent_span_id: match parent {
            Option::Some(c) => Option::Some(c.span_id),
            Option::None => Option::None,
        },
        sampled: match parent {
            Option::Some(c) => c.sampled,
            Option::None => true,
        },
        name: name,
        start_time: now,
        attrs: Seq::empty(),
    };
    let p2 = PipelineModel {
        buffer: p.buffer,
        next_span_id: (p.next_span_id + 1) as u64,
        next_trace_id: match parent {
            Option::Some(_) => p.next_trace_id,
            Option::None => (p.next_trace_id + 1) as u128,
        },
        shutdown: p.shutdown,
    };
    (p2, span)
}

/// The record a span turns into when closed at `now`: the end time is
/// clamped so that it is never before the start time.
pub open spec fn record_of(s: SpanModel, now: u64) -> RecordModel {
    RecordModel {
        trace_id: s.trace_id,
        span_id: s.span_id,
        parent_span_id: s.parent_span_id,
        sampled: s.sampled,
        name: s.name,
        start_time: s.start_time,
        end_time: if now >= s.start_time {
            now
        } else {
            s.start_time
        },
        attrs: s.attrs,
    }
}

/// Closing appends the span's record to the export buffer.
pub open spec fn spec_close(p: PipelineModel, s: SpanModel, now: u64) -> PipelineModel {
    PipelineModel {
        buffer: p.buffer.push(record_of(s, now)),
        next_span_id: p.next_span_id,
        next_trace_id: p.next_trace_id,
        shutdown: p.shutdown,
    }
}

/// Flushing drains the whole buffer for the sink and tears the pipeline
/// down; nothing stays buffered.
pub open spec fn spec_flush(p: PipelineModel) -> (PipelineModel, Seq<RecordModel>) {
    (
        PipelineModel {
            buffer: Seq::empty(),
            next_span_id: p.next_span_id,
            next_trace_id: p.next_trace_id,
            shutdown: true,
        },
        p.buffer,
    )
}

fn bytes_equal(a: &[u8], b: &[u8]) -> (r: bool)
    ensures
        r == (a@ == b@),
{
    if a.len() != b.len() {
        return false;
    }
    let mut i: usize = 0;
    while i < a.len()
        invariant
            0 <= i <= a@.len(),
            a@.len() == b@.len(),
            forall|j: int| 0 <= j < i ==> a@[j] == b@[j],
        decreases a@.len() - i,
    {
        if a[i] != b[i] {
            return false;
        }
        i = i + 1;
    }
    proof {
        assert(a@ =~= b@);
    }
    true
}

/// Replacing the first occurrence of a key is a positional update.
proof fn lemma_set_attr_found(attrs: Seq<AttrEntry>, key: Seq<u8>, value: AttrModel, i: int)
    requires
        0 <= i < attrs.len(),
        attrs[i].key == key,
        forall|j: int| 0 <= j < i ==> (#[trigger] attrs[j]).key != key,
    ensures
        set_attr_entries(attrs, key, value) == attrs.update(i, AttrEntry { key, value }),
    decreases i,
{
    if i == 0 {
        assert(set_attr_entries(attrs, key, value) =~= attrs.update(0, AttrEntry { key, value }));
    } else {
        let tail = attrs.drop_first();
        assert(forall|j: int| 0 <= j < i - 1 ==> (#[trigger] tail[j]).key != key);
        lemma_set_attr_found(tail, key, value, i - 1);
        assert(seq![attrs[0]] + tail.update(i - 1, AttrEntry { key, value }) =~= attrs.update(
            i,
            AttrEntry { key, value },
        ));
    }
}

/// Setting a key that is absent appends the new entry.
proof fn lemma_set_attr_missing(attrs: Seq<AttrEntry>, key: Seq<u8>, value: AttrModel)
    requires
        forall|j: int| 0 <= j < attrs.len() ==> (#[trigger] attrs[j]).key != key,
    ensures
        set_attr_entries(attrs, key, value) == attrs.push(AttrEntry { key, value }),
    decreases attrs.len(),
{
    if attrs.len() == 0 {
        assert(set_attr_entries(attrs, key, value) =~= attrs.push(AttrEntry { key, value }));
    } else {
        let tail = attrs.drop_first();
        lemma_set_attr_missing(tail, key, value);
        assert(seq![attrs[0]] + tail.push(AttrEntry { key, value }) =~= attrs.push(AttrEntry {
            key,
            value,
        }));
    }
}

impl Span {
    /// Attaches metadata to a still-open span; a repeated key replaces the
    /// stored value in place, a new key is appended. Legal only before
    /// close, which the type enforces: closing consumes the span.
    pub fn set_attribute(&mut self, key: Vec<u8>, value: AttrValue)
        ensures
            final(self)@.attrs == set_attr_entries(old(self)@.attrs, key@, value@),
            final(self)@.trace_id == old(self)@.trace_id,
            final(self)@.span_id == old(self)@.span_id,
            final(self)@.parent_span_id == old(self)@.parent_span_id,
            final(self)@.sampled == old(self)@.sampled,
            final(self)@.name == old(self)@.name,
            final(self)@.start_time == old(self)@.start_time,
    {
        let mut i: usize = 0;
        while i < self.attributes.len()
            invariant
                0 <= i <= self.attributes@.len(),
                forall|j: int|
                    0 <= j < i ==> (#[trigger] attrs_view(self.attributes@)[j]).key != key@,
                *self == *old(self),
            decreases self.attributes@.len() - i,
        {
            let same = bytes_equal(self.attributes[i].key.as_slice(), key.as_slice());
            proof {
                assert(attrs_view(self.attributes@)[i as int] == self.attributes@[i as int]@);
            }
            if same {
                proof {
                    lemma_set_attr_found(attrs_view(self.attributes@), key@, value@, i as int);
                }
                let mut entry = self.attributes.remove(i);
                entry.value = value;
                self.attributes.insert(i, entry);
                proof {
                    assert(self.attributes@ =~= old(self).attributes@.update(
                        i as int,
                        Attribute { key: old(self).attributes@[i as int].key, value },
                    ));
                    assert(attrs_view(self.attributes@) =~= attrs_view(
                        old(self).attributes@,
                    ).update(i as int, AttrEntry { key: key@, value: value@ }));
                }
                return ;
            }
            i = i + 1;
        }
        proof {
            lemma_set_attr_missing(attrs_view(self.attributes@), key@, value@);
        }
        let entry_key_snapshot: Ghost<Seq<u8>> = Ghost(key@);
        self.attributes.push(Attribute { key, value });
        proof {
            assert(attrs_view(self.attributes@) =~= attrs_view(old(self).attributes@).push(
                AttrEntry { key: entry_key_snapshot@, value: value@ },
            ));
        }
    }
}

impl Pipeline {
    /// Initializes the process-wide exporter state, once per process
    /// lifetime: an empty export buffer, id counters at one, running.
    pub fn new() -> (p: Pipeline)
        ensures
            p@ == spec_new_pipeline(),
            p@.wf(),
    {
        let p = Pipeline { buffer: Vec::new(), next_span_id: 1, next_trace_id: 1, shutdown: false };
        proof {
            assert(p@.buffer =~= Seq::<RecordModel>::empty());
            assert(p@ =~= spec_new_pipeline());
        }
        p
    }

    /// Opens a new span. Under `Some(parent)` the span joins the parent's
    /// trace, records the parent's span id and inherits its sampling flag;
    /// under `None` it roots a fresh trace. The returned handle must
    /// eventually be handed to [`Pipeline::close`].
    pub fn open_span(&mut self, name: Vec<u8>, parent: Option<SpanContext>, now: u64) -> (span:
        Span)
        requires
            !old(self)@.shutdown,
            old(self)@.next_span_id < u64::MAX,
            parent is None ==> old(self)@.next_trace_id < u128::MAX,
        ensures
            final(self)@ == spec_open(old(self)@, name@, parent, now).0,
            span@ == spec_open(old(self)@, name@, parent, now).1,
            old(self)@.wf() ==> final(self)@.wf() && span@.fresh_for(final(self)@),
    {
        let span_id = self.next_span_id;
        self.next_span_id = self.next_span_id + 1;
        let (trace_id, parent_span_id, sampled) = match parent {
            Option::Some(c) => (c.trace_id, Some(c.span_id), c.sampled),
            Option::None => {
                let t = self.next_trace_id;
                self.next_trace_id = self.next_trace_id + 1;
                (t, None, true)
            },
        };
        let span = Span {
            trace_id,
            span_id,
            parent_span_id,
            sampled,
            name,
            start_time: now,
            attributes: Vec::new(),
        };
        proof {
            assert(span@.attrs =~= Seq::<AttrEntry>::empty());
            assert(span@ =~= spec_open(old(self)@, span@.name, parent, now).1);
            assert(final(self)@ =~= spec_open(old(self)@, span@.name, parent, now).0);
        }
        span
    }

    /// Finalizes timing and hands the span to the export buffer. The span
    /// is consumed: closing it a second time is a compile-time error, and
    /// the buffer is never corrupted by a double close.
    pub fn close(&mut self, span: Span, now: u64)
        requires
            !old(self)@.shutdown,
        ensures
            final(self)@ == spec_close(old(self)@, span@, now),
            old(self)@.wf() && span@.fresh_for(old(self)@) ==> final(self)@.wf(),
    {
        let end_time = if now >= span.start_time {
            now
        } else {
            span.start_time
        };
        let record = SpanRecord {
            trace_id: span.trace_id,
            span_id: span.span_id,
            parent_span_id: span.parent_span_id,
            sampled: span.sampled,
            name: span.name,
            start_time: span.start_time,
            end_time,
            attributes: span.attributes,
        };
        proof {
            assert(record@ =~= record_of(span@, now));
        }
        self.buffer.push(record);
        proof {
            assert(final(self)@.buffer =~= old(self)@.buffer.push(record_of(span@, now)));
            assert(final(self)@ =~= spec_close(old(self)@, span@, now));
        }
    }

    /// Synchronously drains every buffered span for the telemetry sink and
    /// tears the pipeline down. Must run before the host may suspend the
    /// process: what is still buffered at suspension is lost forever.
    /// Handing the drained records to the sink is the caller's I/O; a sink
    /// failure therefore never fails the operation that produced the spans.
    pub fn flush_and_shutdown(&mut self) -> (drained: Vec<SpanRecord>)
        ensures
            final(self)@ == spec_flush(old(self)@).0,
            records_view(drained@) == spec_flush(old(self)@).1,
    {
        let mut drained: Vec<SpanRecord> = Vec::new();
        core::mem::swap(&mut drained, &mut self.buffer);
        self.shutdown = true;
        proof {
            assert(final(self)@.buffer =~= Seq::<RecordModel>::empty());
            assert(final(self)@ =~= spec_flush(old(self)@).0);
        }
        drained
    }
}

/// Law: a span opened under a parent context and then closed appears in the
/// export buffer as a new record carrying `parent_span_id` equal to that
/// parent's span id, the parent's trace id and sampling flag, a start time
/// equal to the opening instant and an end time not before it; every record
/// already buffered is untouched.
pub proof fn lemma_parent_linkage(
    p: PipelineModel,
    name: Seq<u8>,
    parent: SpanContext,
    t_open: u64,
    t_close: u64,
)
    ensures
        ({
            let (p1, span) = spec_open(p, name, Some(parent), t_open);
            let p2 = spec_close(p1, span, t_close);
            &&& p2.buffer.len() == p.buffer.len() + 1
            &&& p2.buffer.last().parent_span_id == Some(parent.span_id)
            &&& p2.buffer.last().trace_id == parent.trace_id
            &&& p2.buffer.last().sampled == parent.sampled
            &&& p2.buffer.last().name == name
            &&& p2.buffer.last().start_time == t_open
            &&& p2.buffer.last().end_time >= t_open
            &&& forall|i: int| 0 <= i < p.buffer.len() ==> p2.buffer[i] == p.buffer[i]
        }),
{
}

/// Law: no span is exported twice — a flush after the teardown drains
/// nothing, and one drained batch of a well-formed pipeline never holds two
/// records with the same span id.
pub proof fn lemma_no_double_export(p: PipelineModel)
    ensures
        spec_flush(spec_flush(p).0).1.len() == 0,
        p.wf() ==> forall|i: int, j: int|
            0 <= i < j < spec_flush(p).1.len() ==> (#[trigger] spec_flush(p).1[i]).span_id != (
            #[trigger] spec_flush(p).1[j]).span_id,
{
}

} // verus!
