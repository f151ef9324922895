//! What a reader hands to the runtime: the payload of an event, the result of
//! one read, and the ways in which reading fails.

use crate::bindings::GlobPatternError;
use crate::offset::{advances, comparable, position_of, Offset, OffsetValueView, OffsetView};
use crate::text::{
    bytes_equal, clone_optional_text, optional_bytes_view, optional_text_view, text_equal,
    texts_view,
};
use crate::value::{
    optional_values_view, values_view, DataEventType, Value, ValueView, ValuesMap,
};
use vstd::prelude::*;

verus! {

/// The object-store request during which an error arose.
#[derive(Clone, Copy, Debug, PartialEq, Eq, Structural)]
pub enum S3CommandName {
    ListObjectsV2,
    GetObject,
    DeleteObject,
    InitiateMultipartUpload,
    PutMultipartChunk,
    CompleteMultipartUpload,
}

/// What went wrong with an object-store request.
#[derive(Debug, Clone, PartialEq, Eq)]
pub enum S3Failure {
    /// The store answered with a status other than 200.
    HttpFail,
    /// Any other failure, with the message of the client.
    Other(String),
}

/// Why a read failed. A failure that arose in a backend carries the message
/// of that backend.
#[derive(Debug, PartialEq, Eq)]
pub enum ReadError {
    Io(String),
    Kafka(String),
    Csv(String),
    S3(S3CommandName, S3Failure),
    Sqlite(String),
    Py(String),
    GlobPattern(GlobPatternError),
    Bincode(String),
    MalformedData,
    NoObjectsToRead,
}

/// What is known of the file or object that an event comes from.
#[derive(Debug, PartialEq, Eq)]
pub struct SourceMetadata {
    /// Creation time, in seconds since the Unix epoch.
    pub created_at: Option<u64>,
    /// Modification time, in seconds since the Unix epoch.
    pub modified_at: Option<u64>,
    pub owner: Option<String>,
    pub path: String,
    /// When the connector first saw the source, in seconds since the Unix epoch.
    pub seen_at: u64,
}

/// The mathematical content of a [`SourceMetadata`].
pub struct SourceMetadataView {
    pub created_at: Option<u64>,
    pub modified_at: Option<u64>,
    pub owner: Option<Seq<char>>,
    pub path: Seq<char>,
    pub seen_at: u64,
}

impl View for SourceMetadata {
    type V = SourceMetadataView;

    open spec fn view(&self) -> SourceMetadataView {
        SourceMetadataView {
            created_at: self.created_at,
            modified_at: self.modified_at,
            owner: optional_text_view(self.owner),
            path: self.path@,
            seen_at: self.seen_at,
        }
    }
}

impl Clone for SourceMetadata {
    fn clone(&self) -> (r: Self)
        ensures
            r@ == self@,
    {
        SourceMetadata {
            created_at: self.created_at,
            modified_at: self.modified_at,
            owner: clone_optional_text(&self.owner),
            path: self.path.clone(),
            seen_at: self.seen_at,
        }
    }
}

impl SourceMetadata {
    /// Whether two descriptions say the same.
    pub fn same(&self, other: &SourceMetadata) -> (r: bool)
        ensures
            r == (self@ == other@),
    {
        let same_owner = match &self.owner {
            Some(owner) => match &other.owner {
                Some(other_owner) => text_equal(owner.as_str(), other_owner.as_str()),
                None => false,
            },
            None => other.owner.is_none(),
        };
        self.created_at == other.created_at && self.modified_at == other.modified_at && same_owner
            && text_equal(self.path.as_str(), other.path.as_str()) && self.seen_at
            == other.seen_at
    }
}

/// The content of optional metadata.
pub open spec fn optional_metadata_view(metadata: Option<SourceMetadata>) -> Option<
    SourceMetadataView,
> {
    match metadata {
        Some(m) => Some(m@),
        None => None,
    }
}

/// The payload of one event.
#[derive(Debug)]
pub enum ReaderContext {
    /// The bytes of one line or of one whole object.
    RawBytes(DataEventType, Vec<u8>),
    /// The fields of one delimited record.
    TokenizedEntries(DataEventType, Vec<String>),
    /// Key and payload of one message.
    KeyValue((Option<Vec<u8>>, Option<Vec<u8>>)),
    /// Kind, key and named values of one typed row.
    Diff((DataEventType, Option<Vec<Value>>, ValuesMap)),
}

/// The mathematical content of a [`ReaderContext`].
pub enum ReaderContextView {
    RawBytes(DataEventType, Seq<u8>),
    TokenizedEntries(DataEventType, Seq<Seq<char>>),
    KeyValue(Option<Seq<u8>>, Option<Seq<u8>>),
    Diff(DataEventType, Option<Seq<ValueView>>, Map<Seq<char>, ValueView>),
}

impl View for ReaderContext {
    type V = ReaderContextView;

    open spec fn view(&self) -> ReaderContextView {
        match self {
            ReaderContext::RawBytes(event, bytes) => ReaderContextView::RawBytes(*event, bytes@),
            ReaderContext::TokenizedEntries(event, entries) => ReaderContextView::TokenizedEntries(
                *event,
                texts_view(entries@),
            ),
            ReaderContext::KeyValue((key, value)) => ReaderContextView::KeyValue(
                optional_bytes_view(*key),
                optional_bytes_view(*value),
            ),
            ReaderContext::Diff((event, key, values)) => ReaderContextView::Diff(
                *event,
                optional_values_view(*key),
                values@,
            ),
        }
    }
}

fn same_optional_bytes(a: &Option<Vec<u8>>, b: &Option<Vec<u8>>) -> (r: bool)
    ensures
        r == (optional_bytes_view(*a) == optional_bytes_view(*b)),
{
    match a {
        Some(x) => match b {
            Some(y) => bytes_equal(x.as_slice(), y.as_slice()),
            None => false,
        },
        None => b.is_none(),
    }
}

fn same_texts(a: &Vec<String>, b: &Vec<String>) -> (r: bool)
    ensures
        r == (texts_view(a@) == texts_view(b@)),
{
    if a.len() != b.len() {
        assert(texts_view(a@).len() != texts_view(b@).len());
        return false;
    }
    let mut i: usize = 0;
    while i < a.len()
        invariant
            i <= a.len(),
            a.len() == b.len(),
            forall|j: int| 0 <= j < i ==> a[j]@ == b[j]@,
        decreases a.len() - i,
    {
        if !text_equal(a[i].as_str(), b[i].as_str()) {
            assert(texts_view(a@)[i as int] != texts_view(b@)[i as int]);
            return false;
        }
        i += 1;
    }
    assert(texts_view(a@) =~= texts_view(b@));
    true
}

fn same_values(a: &Vec<Value>, b: &Vec<Value>) -> (r: bool)
    ensures
        r == (values_view(a@) == values_view(b@)),
{
    if a.len() != b.len() {
        assert(values_view(a@).len() != values_view(b@).len());
        return false;
    }
    let mut i: usize = 0;
    while i < a.len()
        invariant
            i <= a.len(),
            a.len() == b.len(),
            forall|j: int| 0 <= j < i ==> a[j]@ == b[j]@,
        decreases a.len() - i,
    {
        if !a[i].same(&b[i]) {
            assert(values_view(a@)[i as int] != values_view(b@)[i as int]);
            return false;
        }
        i += 1;
    }
    assert(values_view(a@) =~= values_view(b@));
    true
}

impl ReaderContext {
    /// Every record that the payload holds is well formed.
    pub open spec fn wf(&self) -> bool {
        match self {
            ReaderContext::Diff((_, _, values)) => values.wf(),
            _ => true,
        }
    }

    /// Whether two payloads have the same content.
    pub fn same(&self, other: &ReaderContext) -> (r: bool)
        requires
            self.wf(),
            other.wf(),
        ensures
            r == (self@ == other@),
    {
        match self {
            ReaderContext::RawBytes(event, bytes) => match other {
                ReaderContext::RawBytes(other_event, other_bytes) => *event == *other_event
                    && bytes_equal(bytes.as_slice(), other_bytes.as_slice()),
                _ => false,
            },
            ReaderContext::TokenizedEntries(event, entries) => match other {
                ReaderContext::TokenizedEntries(other_event, other_entries) => *event
                    == *other_event && same_texts(entries, other_entries),
                _ => false,
            },
            ReaderContext::KeyValue((key, value)) => match other {
                ReaderContext::KeyValue((other_key, other_value)) => same_optional_bytes(
                    key,
                    other_key,
                ) && same_optional_bytes(value, other_value),
                _ => false,
            },
            ReaderContext::Diff((event, key, values)) => match other {
                ReaderContext::Diff((other_event, other_key, other_values)) => {
                    let same_key = match key {
                        Some(k) => match other_key {
                            Some(other_k) => same_values(k, other_k),
                            None => false,
                        },
                        None => other_key.is_none(),
                    };
                    *event == *other_event && same_key && values.same(other_values)
                },
                _ => false,
            },
        }
    }

    /// The payload of an event that carries raw bytes.
    pub fn from_raw_bytes(event: DataEventType, raw_bytes: Vec<u8>) -> (r: ReaderContext)
        ensures
            r@ == ReaderContextView::RawBytes(event, raw_bytes@),
    {
        ReaderContext::RawBytes(event, raw_bytes)
    }

    /// The payload of an event that carries a typed row.
    pub fn from_diff(event: DataEventType, key: Option<Vec<Value>>, values: ValuesMap) -> (r:
        ReaderContext)
        ensures
            r@ == ReaderContextView::Diff(event, optional_values_view(key), values@),
    {
        ReaderContext::Diff((event, key, values))
    }

    /// The payload of an event that carries the fields of a delimited record.
    pub fn from_tokenized_entries(event: DataEventType, tokenized_entries: Vec<String>) -> (r:
        ReaderContext)
        ensures
            r@ == ReaderContextView::TokenizedEntries(event, texts_view(tokenized_entries@)),
    {
        ReaderContext::TokenizedEntries(event, tokenized_entries)
    }

    /// The payload of an event that carries one message.
    pub fn from_key_value(key: Option<Vec<u8>>, value: Option<Vec<u8>>) -> (r: ReaderContext)
        ensures
            r@ == ReaderContextView::KeyValue(optional_bytes_view(key), optional_bytes_view(value)),
    {
        ReaderContext::KeyValue((key, value))
    }
}

/// What one read yields.
#[derive(Debug)]
pub enum ReadResult {
    /// The stream is exhausted.
    Finished,
    /// A file or object begins.
    NewSource(Option<SourceMetadata>),
    /// A file or object has ended. While `commit_allowed` is false the
    /// frontier must not be persisted: an event that belongs to the one just
    /// emitted is still to come.
    FinishedSource { commit_allowed: bool },
    /// One event and the offset it was read at.
    Data(ReaderContext, Offset),
}

/// The mathematical content of a [`ReadResult`].
pub enum ReadResultView {
    Finished,
    NewSource(Option<SourceMetadataView>),
    FinishedSource { commit_allowed: bool },
    Data(ReaderContextView, OffsetView),
}

impl View for ReadResult {
    type V = ReadResultView;

    open spec fn view(&self) -> ReadResultView {
        match self {
            ReadResult::Finished => ReadResultView::Finished,
            ReadResult::NewSource(metadata) => ReadResultView::NewSource(
                optional_metadata_view(*metadata),
            ),
            ReadResult::FinishedSource { commit_allowed } => ReadResultView::FinishedSource {
                commit_allowed: *commit_allowed,
            },
            ReadResult::Data(context, offset) => ReadResultView::Data(
                context@,
                (offset.0@, offset.1@),
            ),
        }
    }
}

impl ReadResult {
    /// Every record that the result holds is well formed.
    pub open spec fn wf(&self) -> bool {
        match self {
            ReadResult::Data(context, _) => context.wf(),
            _ => true,
        }
    }

    /// Whether two results have the same content.
    pub fn same(&self, other: &ReadResult) -> (r: bool)
        requires
            self.wf(),
            other.wf(),
        ensures
            r == (self@ == other@),
    {
        match self {
            ReadResult::Finished => match other {
                ReadResult::Finished => true,
                _ => false,
            },
            ReadResult::NewSource(metadata) => match other {
                ReadResult::NewSource(other_metadata) => match metadata {
                    Some(m) => match other_metadata {
                        Some(other_m) => m.same(other_m),
                        None => false,
                    },
                    None => other_metadata.is_none(),
                },
                _ => false,
            },
            ReadResult::FinishedSource { commit_allowed } => match other {
                ReadResult::FinishedSource { commit_allowed: other_allowed } => *commit_allowed
                    == *other_allowed,
                _ => false,
            },
            ReadResult::Data(context, offset) => match other {
                ReadResult::Data(other_context, other_offset) => context.same(other_context)
                    && offset.0.same(&other_offset.0) && offset.1.same(&other_offset.1),
                _ => false,
            },
        }
    }
}

/// The content of an optional read result.
pub open spec fn optional_result_view(result: Option<ReadResult>) -> Option<ReadResultView> {
    match result {
        Some(r) => Some(r@),
        None => None,
    }
}

/// The content of each read result of a list, in order.
pub open spec fn results_view(results: Seq<ReadResult>) -> Seq<ReadResultView> {
    Seq::new(results.len(), |i: int| results[i]@)
}

/// The position that a read hands on: that of its data event, if it
/// yielded one.
pub open spec fn position_handed_on(result: Option<ReadResultView>) -> Option<OffsetValueView> {
    match result {
        Some(ReadResultView::Data(_, offset)) => Some(offset.1),
        _ => None,
    }
}

/// One operation of a reader, as far as its count of entries goes: the count
/// before and after, and what the operation yielded.
pub struct CountedStep {
    pub before: u64,
    pub after: u64,
    pub result: Option<ReadResultView>,
}

/// The operation counts what it hands on: the count does not fall, and a
/// position that is handed on is numbered by the count after the operation,
/// which has grown.
pub open spec fn counts_entry(step: CountedStep) -> bool {
    &&& step.before <= step.after
    &&& position_handed_on(step.result) matches Some(position) ==> step.before < step.after
        && position_of(position) == Some(step.after as int)
}

/// A run of a reader: operations that each count what they hand on, each
/// beginning with the count that the one before ended with, and all handing
/// on positions of one kind.
pub open spec fn is_counted_run(steps: Seq<CountedStep>) -> bool {
    &&& forall|i: int| 0 <= i < steps.len() ==> counts_entry(#[trigger] steps[i])
    &&& forall|i: int|
        0 <= i < steps.len() - 1 ==> (#[trigger] steps[i]).after == steps[i + 1].before
    &&& forall|i: int, j: int|
        0 <= i < steps.len() && 0 <= j < steps.len() ==> (match (
            position_handed_on((#[trigger] steps[i]).result),
            position_handed_on((#[trigger] steps[j]).result),
        ) {
            (Some(a), Some(b)) => comparable(a, b),
            _ => true,
        })
}

/// Along a run the count of entries never falls.
proof fn lemma_run_counts_grow(steps: Seq<CountedStep>, i: int, j: int)
    requires
        is_counted_run(steps),
        0 <= i <= j < steps.len(),
    ensures
        steps[i].after <= steps[j].after,
    decreases j - i,
{
    if i < j {
        lemma_run_counts_grow(steps, i, j - 1);
        assert(steps[j - 1].after == steps[j].before);
        assert(counts_entry(steps[j]));
    }
}

/// The positions that a run hands on grow strictly: of two data events, the
/// later one lies beyond the earlier one.
pub proof fn lemma_run_positions_increase(steps: Seq<CountedStep>, i: int, j: int)
    requires
        is_counted_run(steps),
        0 <= i < j < steps.len(),
        position_handed_on(steps[i].result) is Some,
        position_handed_on(steps[j].result) is Some,
    ensures
        advances(
            position_handed_on(steps[i].result).unwrap(),
            position_handed_on(steps[j].result).unwrap(),
        ),
{
    lemma_run_counts_grow(steps, i, j - 1);
    assert(steps[j - 1].after == steps[j].before);
    assert(counts_entry(steps[i]));
    assert(counts_entry(steps[j]));
}

} // verus!
