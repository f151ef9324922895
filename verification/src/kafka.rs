//! The reader and the writer of a message bus. The driver owns the consumer
//! and the producer; what is decided of a message, and what is made of a
//! record, is decided here.

use crate::offset::{
    advances, OffsetAntichain, OffsetKey, OffsetKeyView, OffsetValue, OffsetValueView,
    StorageType,
};
use crate::reader::{
    position_handed_on, ReadResult, ReadResultView, ReaderContext, ReaderContextView,
};
use crate::text::{
    decimal, decimal_digits, optional_bytes_view, signed_decimal, signed_decimal_digits,
    text_equal, texts_view,
};
use crate::value::{copy_of, Value, ValueView};
use crate::writer::{FormatterContext, FormatterContextView, WriteError};
use std::collections::HashMap;
use vstd::prelude::*;
use vstd::string::*;
use vstd::utf8::encode_utf8;

verus! {

broadcast use vstd::std_specs::hash::group_hash_axioms;

/// One message as the consumer delivered it.
#[derive(Debug)]
pub struct KafkaMessage {
    pub topic: String,
    pub partition: i32,
    pub offset: i64,
    pub key: Option<Vec<u8>>,
    pub payload: Option<Vec<u8>>,
}

/// What the reader makes of a message.
#[derive(Debug)]
pub enum KafkaStep {
    /// The message lies at or before the frontier. It is dropped, and the
    /// consumer is to seek the partition to `offset` and to poll again.
    Seek { topic: String, partition: i32, offset: i64 },
    /// The message is handed on.
    Emit(ReadResult),
}

/// The mathematical content of a [`KafkaStep`].
pub enum KafkaStepView {
    Seek { topic: Seq<char>, partition: i32, offset: i64 },
    Emit(ReadResultView),
}

impl View for KafkaStep {
    type V = KafkaStepView;

    open spec fn view(&self) -> KafkaStepView {
        match self {
            KafkaStep::Seek { topic, partition, offset } => KafkaStepView::Seek {
                topic: topic@,
                partition: *partition,
                offset: *offset,
            },
            KafkaStep::Emit(result) => KafkaStepView::Emit(result@),
        }
    }
}

/// The state of a reader of a topic.
pub struct KafkaReaderView {
    pub persistent_id: Option<u128>,
    pub topic: Seq<char>,
    /// For each partition that is still to be sought, the offset of the last
    /// message that was committed.
    pub positions_for_seek: Map<i32, i64>,
}

/// The offset that a frontier holds for a partition of a topic.
pub open spec fn bus_position(
    frontier: Map<OffsetKeyView, OffsetValueView>,
    topic: Seq<char>,
    partition: i32,
) -> Option<i64> {
    let key = OffsetKeyView::Kafka(topic, partition);
    if frontier.contains_key(key) && frontier[key] is KafkaOffset {
        Some(frontier[key]->KafkaOffset_0)
    } else {
        None
    }
}

/// The partitions that are to be sought after a seek to `frontier`: those
/// that were, and every partition of the topic for which the frontier holds
/// an offset, with that offset.
pub open spec fn positions_after_seek(
    positions: Map<i32, i64>,
    topic: Seq<char>,
    frontier: Map<OffsetKeyView, OffsetValueView>,
) -> Map<i32, i64> {
    Map::new(
        |partition: i32|
            positions.contains_key(partition) || bus_position(frontier, topic, partition) is Some,
        |partition: i32|
            match bus_position(frontier, topic, partition) {
                Some(offset) => offset,
                None => positions[partition],
            },
    )
}

/// Why a seek passes over an entry of a frontier.
#[derive(Clone, Copy, Debug, PartialEq, Eq, Structural)]
pub enum SeekSkip {
    /// The position is no offset of a message bus.
    NotABusOffset,
    /// The channel is a partition of another topic.
    OtherTopic,
    /// The channel is no partition of a topic.
    NotAPartition,
}

/// Why a seek of a reader of `topic` passes over the entry of a frontier
/// that holds `value` for `key`, or nothing where it notes the entry.
pub open spec fn skip_reason(topic: Seq<char>, key: OffsetKeyView, value: OffsetValueView) -> Option<
    SeekSkip,
> {
    if !(value is KafkaOffset) {
        Some(SeekSkip::NotABusOffset)
    } else {
        match key {
            OffsetKeyView::Kafka(key_topic, _) => if key_topic == topic {
                None
            } else {
                Some(SeekSkip::OtherTopic)
            },
            OffsetKeyView::Empty => Some(SeekSkip::NotAPartition),
        }
    }
}

/// The entries, among the first `n` of a frontier, that a seek passes over:
/// the place of each in the frontier, and why.
pub open spec fn skipped_among(
    topic: Seq<char>,
    keys: Seq<OffsetKeyView>,
    values: Seq<OffsetValueView>,
    n: int,
) -> Seq<(usize, SeekSkip)>
    decreases n,
{
    if n <= 0 {
        seq![]
    } else {
        let before = skipped_among(topic, keys, values, n - 1);
        match skip_reason(topic, keys[n - 1], values[n - 1]) {
            Some(reason) => before.push(((n - 1) as usize, reason)),
            None => before,
        }
    }
}

/// The offset after `offset`, or the greatest offset where there is none
/// after it.
pub open spec fn offset_after(offset: i64) -> i64 {
    if offset < i64::MAX {
        (offset + 1) as i64
    } else {
        i64::MAX
    }
}

/// What the reader makes of a message. A message of a partition that is
/// still to be sought is dropped if it lies at or before the committed
/// offset, and the consumer is sent behind that offset; otherwise the
/// partition needs no seek any more. Every other message is handed on with
/// its partition and offset.
pub open spec fn message_step(r: KafkaReaderView, message: KafkaMessage) -> (
    KafkaReaderView,
    KafkaStepView,
) {
    if r.positions_for_seek.contains_key(message.partition)
        && r.positions_for_seek[message.partition] >= message.offset {
        (
            r,
            KafkaStepView::Seek {
                topic: message.topic@,
                partition: message.partition,
                offset: offset_after(r.positions_for_seek[message.partition]),
            },
        )
    } else {
        (
            KafkaReaderView {
                positions_for_seek: r.positions_for_seek.remove(message.partition),
                ..r
            },
            KafkaStepView::Emit(
                ReadResultView::Data(
                    ReaderContextView::KeyValue(
                        optional_bytes_view(message.key),
                        optional_bytes_view(message.payload),
                    ),
                    (
                        OffsetKeyView::Kafka(r.topic, message.partition),
                        OffsetValueView::KafkaOffset(message.offset),
                    ),
                ),
            ),
        )
    }
}

/// Reads the messages of one topic.
#[derive(Debug)]
pub struct KafkaReader {
    persistent_id: Option<u128>,
    topic: String,
    positions_for_seek: HashMap<i32, i64>,
}

impl View for KafkaReader {
    type V = KafkaReaderView;

    closed spec fn view(&self) -> KafkaReaderView {
        KafkaReaderView {
            persistent_id: self.persistent_id,
            topic: self.topic@,
            positions_for_seek: self.positions_for_seek@,
        }
    }
}

impl KafkaReader {
    /// A reader of `topic` that is to seek no partition.
    pub fn new(topic: String, persistent_id: Option<u128>) -> (r: KafkaReader)
        ensures
            r@ == (KafkaReaderView {
                persistent_id,
                topic: topic@,
                positions_for_seek: Map::empty(),
            }),
    {
        KafkaReader { persistent_id, topic, positions_for_seek: HashMap::new() }
    }

    /// The topic that the reader reads.
    pub fn topic(&self) -> (r: &String)
        ensures
            r@ == self@.topic,
    {
        &self.topic
    }

    /// Notes where `frontier` says the reader stood. The consumer is not
    /// moved yet: its partitions are assigned only later, so each partition
    /// is sought when its first message arrives.
    pub fn seek(&mut self, frontier: &OffsetAntichain)
        requires
            frontier.wf(),
        ensures
            final(self)@ == (KafkaReaderView {
                positions_for_seek: positions_after_seek(
                    old(self)@.positions_for_seek,
                    old(self)@.topic,
                    frontier@,
                ),
                ..old(self)@
            }),
    {
        let ghost start = self@.positions_for_seek;
        let ghost topic = self@.topic;
        let mut i: usize = 0;
        while i < frontier.len()
            invariant
                i <= frontier.keys().len(),
                frontier.wf(),
                self.topic@ == topic,
                self.persistent_id == old(self).persistent_id,
                topic == old(self)@.topic,
                start == old(self)@.positions_for_seek,
                forall|partition: i32|
                    self.positions_for_seek@.contains_key(partition) <==> start.contains_key(
                        partition,
                    ) || (bus_position(frontier@, topic, partition) is Some
                        && frontier.keys().subrange(0, i as int).contains(
                        OffsetKeyView::Kafka(topic, partition),
                    )),
                forall|partition: i32| #[trigger]
                    self.positions_for_seek@.contains_key(partition)
                        ==> self.positions_for_seek@[partition] == (if bus_position(
                        frontier@,
                        topic,
                        partition,
                    ) is Some && frontier.keys().subrange(0, i as int).contains(
                        OffsetKeyView::Kafka(topic, partition),
                    ) {
                        bus_position(frontier@, topic, partition).unwrap()
                    } else {
                        start[partition]
                    }),
            decreases frontier.keys().len() - i,
        {
            let offset_key = frontier.key_at(i);
            let offset_value = frontier.value_at(i);
            let ghost seen = frontier.keys().subrange(0, i as int);
            let ghost now = frontier.keys().subrange(0, (i + 1) as int);
            let ghost before = self.positions_for_seek@;
            proof {
                frontier.lemma_entry(i as int);
                assert(now =~= seen.push(offset_key@));
                assert forall|k: OffsetKeyView| now.contains(k) <==> seen.contains(k) || k
                    == offset_key@ by {
                    if seen.contains(k) {
                        let j = seen.index_of(k);
                        assert(now[j] == k);
                    }
                    if k == offset_key@ {
                        assert(now[i as int] == k);
                    }
                    if now.contains(k) {
                        let j = now.index_of(k);
                        if j < i {
                            assert(seen[j] == k);
                        }
                    }
                }
                assert(!seen.contains(offset_key@)) by {
                    if seen.contains(offset_key@) {
                        let j = seen.index_of(offset_key@);
                        assert(frontier.keys()[j] == offset_key@);
                    }
                }
            }
            match offset_value {
                OffsetValue::KafkaOffset(position) => {
                    match offset_key {
                        OffsetKey::Kafka(key_topic, partition) => {
                            if text_equal(self.topic.as_str(), key_topic.as_str()) {
                                self.positions_for_seek.insert(*partition, *position);
                            }
                        },
                        OffsetKey::Empty => {},
                    }
                },
                _ => {},
            }
            i += 1;
            proof {
                assert(now == frontier.keys().subrange(0, i as int));
                assert forall|partition: i32|
                    self.positions_for_seek@.contains_key(partition) <==> start.contains_key(
                        partition,
                    ) || (bus_position(frontier@, topic, partition) is Some
                        && frontier.keys().subrange(0, i as int).contains(
                        OffsetKeyView::Kafka(topic, partition),
                    )) by {
                    let k = OffsetKeyView::Kafka(topic, partition);
                    assert(now.contains(k) <==> seen.contains(k) || k == offset_key@);
                    assert(before.contains_key(partition) <==> start.contains_key(partition)
                        || (bus_position(frontier@, topic, partition) is Some && seen.contains(k)));
                }
                assert forall|partition: i32| #[trigger]
                    self.positions_for_seek@.contains_key(partition)
                    implies self.positions_for_seek@[partition] == (if bus_position(
                    frontier@,
                    topic,
                    partition,
                ) is Some && frontier.keys().subrange(0, i as int).contains(
                    OffsetKeyView::Kafka(topic, partition),
                ) {
                    bus_position(frontier@, topic, partition).unwrap()
                } else {
                    start[partition]
                }) by {
                    let k = OffsetKeyView::Kafka(topic, partition);
                    assert(now.contains(k) <==> seen.contains(k) || k == offset_key@);
                    if before.contains_key(partition) {
                        assert(before[partition] == (if bus_position(frontier@, topic, partition)
                            is Some && seen.contains(k) {
                            bus_position(frontier@, topic, partition).unwrap()
                        } else {
                            start[partition]
                        }));
                    }
                }
            }
        }
        proof {
            assert(frontier.keys().subrange(0, frontier.keys().len() as int) =~= frontier.keys());
            assert forall|partition: i32|
                bus_position(frontier@, topic, partition) is Some implies frontier.keys().contains(
                OffsetKeyView::Kafka(topic, partition),
            ) by {}
            assert(self@.positions_for_seek =~= positions_after_seek(start, topic, frontier@));
        }
    }

    /// The entries of `frontier` that a seek passes over, each with its
    /// place in the frontier and the reason, in the order of the frontier.
    /// The caller is to report them.
    pub fn skipped_by_seek(&self, frontier: &OffsetAntichain) -> (skipped: Vec<(usize, SeekSkip)>)
        requires
            frontier.wf(),
        ensures
            skipped@ == skipped_among(
                self@.topic,
                frontier.keys(),
                frontier.values(),
                frontier.keys().len() as int,
            ),
    {
        let mut skipped: Vec<(usize, SeekSkip)> = Vec::new();
        let mut i: usize = 0;
        while i < frontier.len()
            invariant
                i <= frontier.keys().len(),
                frontier.wf(),
                skipped@ == skipped_among(
                    self@.topic,
                    frontier.keys(),
                    frontier.values(),
                    i as int,
                ),
            decreases frontier.keys().len() - i,
        {
            let reason = match frontier.value_at(i) {
                OffsetValue::KafkaOffset(_) => match frontier.key_at(i) {
                    OffsetKey::Kafka(key_topic, _) => {
                        if text_equal(self.topic.as_str(), key_topic.as_str()) {
                            None
                        } else {
                            Some(SeekSkip::OtherTopic)
                        }
                    },
                    OffsetKey::Empty => Some(SeekSkip::NotAPartition),
                },
                _ => Some(SeekSkip::NotABusOffset),
            };
            match reason {
                Some(reason) => {
                    skipped.push((i, reason));
                },
                None => {},
            }
            i += 1;
        }
        skipped
    }

    /// Decides what becomes of a message. See [`message_step`].
    pub fn on_message(&mut self, message: KafkaMessage) -> (step: KafkaStep)
        ensures
            (final(self)@, step@) == message_step(old(self)@, message),
    {
        let last_read_offset = match self.positions_for_seek.get(&message.partition) {
            Some(offset) => Some(*offset),
            None => None,
        };
        match last_read_offset {
            Some(last) => {
                if last >= message.offset {
                    let offset = if last < i64::MAX {
                        last + 1
                    } else {
                        i64::MAX
                    };
                    return KafkaStep::Seek {
                        topic: message.topic,
                        partition: message.partition,
                        offset,
                    };
                }
                self.positions_for_seek.remove(&message.partition);
            },
            None => {
                assert(self@.positions_for_seek =~= old(self)@.positions_for_seek.remove(
                    message.partition,
                ));
            },
        }
        let offset = (
            OffsetKey::Kafka(self.topic.clone(), message.partition),
            OffsetValue::KafkaOffset(message.offset),
        );
        KafkaStep::Emit(
            ReadResult::Data(ReaderContext::from_key_value(message.key, message.payload), offset),
        )
    }

    /// The id under which the state of the reader is persisted.
    pub fn persistent_id(&self) -> (r: Option<u128>)
        ensures
            r == self@.persistent_id,
    {
        self.persistent_id
    }

    /// Sets the id under which the state of the reader is persisted.
    pub fn update_persistent_id(&mut self, persistent_id: Option<u128>)
        ensures
            final(self)@ == (KafkaReaderView { persistent_id, ..old(self)@ }),
    {
        self.persistent_id = persistent_id;
    }

    /// The kind of source, by which frontiers of the reader are merged.
    pub fn storage_type(&self) -> (r: StorageType)
        ensures
            r == StorageType::Kafka,
    {
        StorageType::Kafka
    }

    /// How many reads may fail in a row before the runtime gives up.
    pub fn max_allowed_consecutive_errors(&self) -> (r: usize)
        ensures
            r == 32,
    {
        32
    }
}

/// A seek notes every entry of a frontier that it does not pass over: a
/// partition is still to be sought after a seek to a frontier that holds,
/// for that partition of the topic, an entry with no reason to skip it.
pub proof fn lemma_seek_notes_what_it_does_not_skip(
    positions: Map<i32, i64>,
    topic: Seq<char>,
    frontier: Map<OffsetKeyView, OffsetValueView>,
    partition: i32,
)
    ensures
        frontier.contains_key(OffsetKeyView::Kafka(topic, partition)) && skip_reason(
            topic,
            OffsetKeyView::Kafka(topic, partition),
            frontier[OffsetKeyView::Kafka(topic, partition)],
        ) is None ==> positions_after_seek(positions, topic, frontier).contains_key(partition)
            && OffsetValueView::KafkaOffset(
            positions_after_seek(positions, topic, frontier)[partition],
        ) == frontier[OffsetKeyView::Kafka(topic, partition)],
        !positions.contains_key(partition) && positions_after_seek(
            positions,
            topic,
            frontier,
        ).contains_key(partition) ==> frontier.contains_key(OffsetKeyView::Kafka(topic, partition))
            && skip_reason(
            topic,
            OffsetKeyView::Kafka(topic, partition),
            frontier[OffsetKeyView::Kafka(topic, partition)],
        ) is None,
{
}

/// After a seek, nothing at or before the frontier is handed on: a message
/// that is handed on for a partition that was still to be sought lies
/// strictly beyond the offset committed for that partition, and that
/// partition is sought no more.
pub proof fn lemma_handed_on_message_is_beyond_committed(r: KafkaReaderView, message: KafkaMessage)
    requires
        r.positions_for_seek.contains_key(message.partition),
        message_step(r, message).1 is Emit,
    ensures
        advances(
            OffsetValueView::KafkaOffset(r.positions_for_seek[message.partition]),
            position_handed_on(Some(message_step(r, message).1->Emit_0)).unwrap(),
        ),
        !message_step(r, message).0.positions_for_seek.contains_key(message.partition),
{
}

/// The sixteen bytes of a key, least significant first.
pub open spec fn key_bytes(key: u128) -> Seq<u8> {
    Seq::new(16, |i: int| ((key >> ((8 * i) as u128)) & 0xff) as u8)
}

/// The bytes that stand for a value as the key of a message: the bytes of a
/// byte string, the UTF-8 form of a text, and nothing for any other value.
pub open spec fn key_of_value(value: ValueView) -> Option<Seq<u8>> {
    match value {
        ValueView::Bytes(bytes) => Some(bytes),
        ValueView::String(text) => Some(encode_utf8(text)),
        _ => None,
    }
}

/// The key of the messages of a record: the designated value where one is
/// designated, and the primary key of the record otherwise.
pub open spec fn message_key_of(key_field_index: Option<usize>, data: FormatterContextView) -> Option<
    Seq<u8>,
> {
    match key_field_index {
        Some(index) => key_of_value(data.values[index as int]),
        None => Some(key_bytes(data.key)),
    }
}

/// The bytes that stand for a value in a header: the bytes of a byte string,
/// and the UTF-8 form of the rendered value otherwise.
pub open spec fn header_value(value: ValueView, rendered: Seq<char>) -> Seq<u8> {
    match value {
        ValueView::Bytes(bytes) => bytes,
        _ => encode_utf8(rendered),
    }
}

/// The headers of the messages of a record: the commit time and the sign of
/// the record, then one header for each configured field.
pub open spec fn message_headers_of(
    header_fields: Seq<(Seq<char>, usize)>,
    data: FormatterContextView,
    rendered: Seq<Seq<char>>,
) -> Seq<(Seq<char>, Seq<u8>)> {
    seq![
        ("pathway_time"@, encode_utf8(decimal_digits(data.time as nat))),
        ("pathway_diff"@, encode_utf8(signed_decimal_digits(data.diff as int))),
    ] + Seq::new(
        header_fields.len(),
        |i: int|
            (
                header_fields[i].0,
                header_value(data.values[header_fields[i].1 as int], rendered[header_fields[i].1 as int]),
            ),
    )
}

/// The content of the configured header fields.
pub open spec fn header_fields_view(fields: Seq<(String, usize)>) -> Seq<(Seq<char>, usize)> {
    Seq::new(fields.len(), |i: int| (fields[i].0@, fields[i].1))
}

/// The content of a list of headers.
pub open spec fn headers_view(headers: Seq<(String, Vec<u8>)>) -> Seq<(Seq<char>, Seq<u8>)> {
    Seq::new(headers.len(), |i: int| (headers[i].0@, headers[i].1@))
}

/// One message to produce.
#[derive(Debug)]
pub struct KafkaRecord {
    pub topic: String,
    pub payload: Vec<u8>,
    pub headers: Vec<(String, Vec<u8>)>,
    pub key: Vec<u8>,
}

/// The mathematical content of a [`KafkaRecord`].
pub struct KafkaRecordView {
    pub topic: Seq<char>,
    pub payload: Seq<u8>,
    pub headers: Seq<(Seq<char>, Seq<u8>)>,
    pub key: Seq<u8>,
}

impl View for KafkaRecord {
    type V = KafkaRecordView;

    open spec fn view(&self) -> KafkaRecordView {
        KafkaRecordView {
            topic: self.topic@,
            payload: self.payload@,
            headers: headers_view(self.headers@),
            key: self.key@,
        }
    }
}

/// What the producer answered to a message.
#[derive(Debug, PartialEq, Eq)]
pub enum SendResult {
    Sent,
    /// The queue of the producer is full.
    QueueFull,
    /// Any other failure, with the message of the producer.
    Failed(String),
}

/// What the writer does about the answer of the producer.
#[derive(Debug, PartialEq, Eq)]
pub enum SendStep {
    /// The message is out; the next one follows.
    Done,
    /// The producer is to be polled for so many milliseconds, and the same
    /// message is sent again.
    PollAndRetry { millis: u64 },
    /// The write fails.
    Fail(WriteError),
}

/// The state of a writer to a topic.
pub struct KafkaWriterView {
    pub topic: Seq<char>,
    pub header_fields: Seq<(Seq<char>, usize)>,
    pub key_field_index: Option<usize>,
}

/// Writes records to one topic, one message for each payload.
#[derive(Debug)]
pub struct KafkaWriter {
    topic: String,
    header_fields: Vec<(String, usize)>,
    key_field_index: Option<usize>,
}

impl View for KafkaWriter {
    type V = KafkaWriterView;

    closed spec fn view(&self) -> KafkaWriterView {
        KafkaWriterView {
            topic: self.topic@,
            header_fields: header_fields_view(self.header_fields@),
            key_field_index: self.key_field_index,
        }
    }
}

/// A record can be written when the writer finds in it every value that it
/// is configured to use, each with its rendering.
pub open spec fn fits(w: KafkaWriterView, data: FormatterContextView, rendered: Seq<Seq<char>>) -> bool {
    &&& rendered.len() == data.values.len()
    &&& w.key_field_index matches Some(index) ==> index < data.values.len()
    &&& forall|i: int|
        0 <= i < w.header_fields.len() ==> (#[trigger] w.header_fields[i]).1 < data.values.len()
}

fn key_to_bytes(key: u128) -> (r: Vec<u8>)
    ensures
        r@ == key_bytes(key),
{
    let mut out: Vec<u8> = Vec::new();
    let mut i: u128 = 0;
    while i < 16
        invariant
            i <= 16,
            out.len() == i,
            forall|j: int|
                0 <= j < i ==> out[j] == ((key >> ((8 * j) as u128)) & 0xff) as u8,
        decreases 16 - i,
    {
        let shift: u128 = 8 * i;
        let byte: u8 = ((key >> shift) & 0xff) as u8;
        out.push(byte);
        i += 1;
    }
    assert(out@ =~= key_bytes(key));
    out
}

impl KafkaWriter {
    /// A writer to `topic`. Each header field names a header and the place
    /// of the value that fills it; the key field, if any, is the place of
    /// the value that keys the messages.
    pub fn new(topic: String, header_fields: Vec<(String, usize)>, key_field_index: Option<usize>) -> (r:
        KafkaWriter)
        ensures
            r@ == (KafkaWriterView {
                topic: topic@,
                header_fields: header_fields_view(header_fields@),
                key_field_index,
            }),
    {
        KafkaWriter { topic, header_fields, key_field_index }
    }

    /// Whether `data`, with the renderings `rendered` of its values, can be
    /// written.
    pub fn accepts(&self, data: &FormatterContext, rendered: &Vec<String>) -> (r: bool)
        ensures
            r == fits(self@, data@, texts_view(rendered@)),
    {
        if rendered.len() != data.values.len() {
            return false;
        }
        match self.key_field_index {
            Some(index) => {
                if index >= data.values.len() {
                    return false;
                }
            },
            None => {},
        }
        let mut i: usize = 0;
        while i < self.header_fields.len()
            invariant
                i <= self.header_fields.len(),
                forall|j: int|
                    0 <= j < i ==> (#[trigger] self@.header_fields[j]).1 < data.values.len(),
            decreases self.header_fields.len() - i,
        {
            if self.header_fields[i].1 >= data.values.len() {
                assert(self@.header_fields[i as int].1 >= data@.values.len());
                return false;
            }
            i += 1;
        }
        true
    }

    /// The key of the messages of a record.
    pub fn message_key(&self, data: &FormatterContext) -> (r: Result<Vec<u8>, WriteError>)
        requires
            self@.key_field_index matches Some(index) ==> index < data.values.len(),
        ensures
            match r {
                Ok(key) => message_key_of(self@.key_field_index, data@) == Some(key@),
                Err(e) => {
                    &&& message_key_of(self@.key_field_index, data@) is None
                    &&& e matches WriteError::IncorrectKeyFieldType(value)
                    &&& self@.key_field_index matches Some(index)
                    &&& value@ == data@.values[index as int]
                },
            },
    {
        match self.key_field_index {
            Some(index) => {
                assert(data@.values[index as int] == data.values[index as int]@);
                match &data.values[index] {
                    Value::Bytes(bytes) => Ok(copy_of(bytes)),
                    Value::String(text) => Ok(text.as_str().as_bytes_vec()),
                    other => Err(WriteError::IncorrectKeyFieldType(other.clone())),
                }
            },
            None => Ok(key_to_bytes(data.key)),
        }
    }

    /// The headers of the messages of a record. `rendered` holds the text of
    /// each value of the record as the runtime prints it.
    pub fn message_headers(&self, data: &FormatterContext, rendered: &Vec<String>) -> (r: Vec<
        (String, Vec<u8>),
    >)
        requires
            fits(self@, data@, texts_view(rendered@)),
        ensures
            headers_view(r@) == message_headers_of(
                self@.header_fields,
                data@,
                texts_view(rendered@),
            ),
    {
        let mut headers: Vec<(String, Vec<u8>)> = Vec::new();
        let time = decimal(data.time as u128);
        headers.push(("pathway_time".to_owned(), time.as_str().as_bytes_vec()));
        let diff = signed_decimal(data.diff as i64);
        headers.push(("pathway_diff".to_owned(), diff.as_str().as_bytes_vec()));
        let ghost fields = self@.header_fields;
        let mut i: usize = 0;
        while i < self.header_fields.len()
            invariant
                i <= self.header_fields.len(),
                fields == self@.header_fields,
                fits(self@, data@, texts_view(rendered@)),
                headers.len() == i + 2,
                headers[0].0@ == "pathway_time"@,
                headers[0].1@ == encode_utf8(decimal_digits(data.time as nat)),
                headers[1].0@ == "pathway_diff"@,
                headers[1].1@ == encode_utf8(signed_decimal_digits(data.diff as int)),
                forall|j: int|
                    0 <= j < i ==> (#[trigger] headers[j + 2]).0@ == fields[j].0 && headers[j + 2].1@
                        == header_value(
                        data@.values[fields[j].1 as int],
                        texts_view(rendered@)[fields[j].1 as int],
                    ),
            decreases self.header_fields.len() - i,
        {
            let position = self.header_fields[i].1;
            assert(fields[i as int] == (self.header_fields[i as int].0@, position));
            assert(position < data.values.len());
            assert(data@.values[position as int] == data.values[position as int]@);
            let value: Vec<u8> = match &data.values[position] {
                Value::Bytes(bytes) => copy_of(bytes),
                _ => rendered[position].as_str().as_bytes_vec(),
            };
            headers.push((self.header_fields[i].0.clone(), value));
            i += 1;
        }
        proof {
            let expected = message_headers_of(fields, data@, texts_view(rendered@));
            assert(headers_view(headers@).len() == expected.len());
            assert forall|j: int| 0 <= j < expected.len() implies headers_view(headers@)[j]
                == expected[j] by {
                if j >= 2 {
                    assert(headers[(j - 2) + 2] == headers[j]);
                }
            }
            assert(headers_view(headers@) =~= expected);
        }
        headers
    }

    /// The messages of a record: one for each payload, all with the key and
    /// the headers of the record. A record whose key is neither bytes nor
    /// text is refused.
    pub fn write(&self, data: &FormatterContext, rendered: &Vec<String>) -> (r: Result<
        Vec<KafkaRecord>,
        WriteError,
    >)
        requires
            fits(self@, data@, texts_view(rendered@)),
        ensures
            match r {
                Ok(records) => {
                    &&& message_key_of(self@.key_field_index, data@) is Some
                    &&& records.len() == data.payloads.len()
                    &&& forall|i: int|
                        0 <= i < records.len() ==> (#[trigger] records[i])@ == (KafkaRecordView {
                            topic: self@.topic,
                            payload: data@.payloads[i],
                            headers: message_headers_of(
                                self@.header_fields,
                                data@,
                                texts_view(rendered@),
                            ),
                            key: message_key_of(self@.key_field_index, data@).unwrap(),
                        })
                },
                Err(e) => {
                    &&& message_key_of(self@.key_field_index, data@) is None
                    &&& e matches WriteError::IncorrectKeyFieldType(value)
                    &&& self@.key_field_index matches Some(index)
                    &&& value@ == data@.values[index as int]
                },
            },
    {
        let key = match self.message_key(data) {
            Ok(key) => key,
            Err(e) => {
                return Err(e);
            },
        };
        let mut records: Vec<KafkaRecord> = Vec::new();
        let mut i: usize = 0;
        while i < data.payloads.len()
            invariant
                i <= data.payloads.len(),
                fits(self@, data@, texts_view(rendered@)),
                records.len() == i,
                message_key_of(self@.key_field_index, data@) == Some(key@),
                forall|j: int|
                    0 <= j < i ==> (#[trigger] records[j])@ == (KafkaRecordView {
                        topic: self@.topic,
                        payload: data@.payloads[j],
                        headers: message_headers_of(
                            self@.header_fields,
                            data@,
                            texts_view(rendered@),
                        ),
                        key: key@,
                    }),
            decreases data.payloads.len() - i,
        {
            assert(data@.payloads[i as int] == data.payloads[i as int]@);
            let record = KafkaRecord {
                topic: self.topic.clone(),
                payload: copy_of(&data.payloads[i]),
                headers: self.message_headers(data, rendered),
                key: copy_of(&key),
            };
            records.push(record);
            i += 1;
        }
        Ok(records)
    }

    /// What the writer does about the answer of the producer to a message:
    /// on a full queue it polls for ten milliseconds and sends the same
    /// message again; any other failure fails the write.
    pub fn on_send_result(&self, result: SendResult) -> (r: SendStep)
        ensures
            r == match result {
                SendResult::Sent => SendStep::Done,
                SendResult::QueueFull => SendStep::PollAndRetry { millis: 10 },
                SendResult::Failed(message) => SendStep::Fail(WriteError::Kafka(message)),
            },
    {
        match result {
            SendResult::Sent => SendStep::Done,
            SendResult::QueueFull => SendStep::PollAndRetry { millis: 10 },
            SendResult::Failed(message) => SendStep::Fail(WriteError::Kafka(message)),
        }
    }

    /// Whether a failed write may be tried again.
    pub fn retriable(&self) -> (r: bool)
        ensures
            r,
    {
        true
    }

    /// Whether writes must come from one thread.
    pub fn single_threaded(&self) -> (r: bool)
        ensures
            !r,
    {
        false
    }
}

} // verus!
