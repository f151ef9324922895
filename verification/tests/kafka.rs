use pathway_connectors::kafka::{
    KafkaMessage, KafkaReader, KafkaStep, KafkaWriter, SeekSkip, SendResult, SendStep,
};
use pathway_connectors::offset::{OffsetAntichain, OffsetKey, OffsetValue, StorageType};
use pathway_connectors::reader::{ReadResult, ReaderContext};
use pathway_connectors::value::Value;
use pathway_connectors::writer::{FormatterContext, WriteError};

fn message(partition: i32, offset: i64) -> KafkaMessage {
    KafkaMessage {
        topic: "topic".to_string(),
        partition,
        offset,
        key: Some(b"k".to_vec()),
        payload: Some(b"v".to_vec()),
    }
}

fn emitted(partition: i32, offset: i64) -> ReadResult {
    ReadResult::Data(
        ReaderContext::from_key_value(Some(b"k".to_vec()), Some(b"v".to_vec())),
        (OffsetKey::Kafka("topic".to_string(), partition), OffsetValue::KafkaOffset(offset)),
    )
}

fn is_emitted(step: KafkaStep, partition: i32, offset: i64) -> bool {
    match step {
        KafkaStep::Emit(result) => result.same(&emitted(partition, offset)),
        KafkaStep::Seek { .. } => false,
    }
}

fn is_seek(step: KafkaStep, expected_partition: i32, expected_offset: i64) -> bool {
    match step {
        KafkaStep::Seek { topic, partition, offset } => {
            topic == "topic" && partition == expected_partition && offset == expected_offset
        }
        KafkaStep::Emit(_) => false,
    }
}

fn context(values: Vec<Value>) -> FormatterContext {
    FormatterContext {
        payloads: vec![b"first".to_vec(), b"second".to_vec()],
        key: 0x0102_0304_0506_0708_090a_0b0c_0d0e_0f10,
        values,
        time: 42,
        diff: -1,
    }
}

#[test]
fn message_bus_lazy_seek() {
    let mut reader = KafkaReader::new("topic".to_string(), None);
    let mut frontier = OffsetAntichain::new();
    frontier.advance_offset(OffsetKey::Kafka("topic".to_string(), 0), OffsetValue::KafkaOffset(100));
    reader.seek(&frontier);
    assert!(is_seek(reader.on_message(message(0, 50)), 0, 101));
    assert!(is_seek(reader.on_message(message(0, 100)), 0, 101));
    assert!(is_emitted(reader.on_message(message(0, 150)), 0, 150));
    // the entry of the partition is gone: an older message is handed on now
    assert!(is_emitted(reader.on_message(message(0, 50)), 0, 50));
}

#[test]
fn a_partition_without_position_is_read_from_where_the_consumer_stands() {
    let mut reader = KafkaReader::new("topic".to_string(), Some(5));
    assert_eq!(reader.persistent_id(), Some(5));
    assert_eq!(reader.storage_type(), StorageType::Kafka);
    assert_eq!(reader.max_allowed_consecutive_errors(), 32);
    assert!(is_emitted(reader.on_message(message(3, 0)), 3, 0));
    reader.update_persistent_id(None);
    assert_eq!(reader.persistent_id(), None);
}

#[test]
fn seek_takes_the_positions_of_the_own_topic_only() {
    let mut reader = KafkaReader::new("topic".to_string(), None);
    let mut frontier = OffsetAntichain::new();
    frontier.advance_offset(OffsetKey::Kafka("other".to_string(), 0), OffsetValue::KafkaOffset(100));
    frontier.advance_offset(OffsetKey::Kafka("topic".to_string(), 1), OffsetValue::KafkaOffset(10));
    frontier
        .advance_offset(OffsetKey::Kafka("topic".to_string(), 2), OffsetValue::PythonEntrySequentialId(10));
    frontier.advance_offset(OffsetKey::Empty, OffsetValue::KafkaOffset(77));
    reader.seek(&frontier);
    assert!(is_emitted(reader.on_message(message(0, 5)), 0, 5));
    assert!(is_seek(reader.on_message(message(1, 10)), 1, 11));
    assert!(is_emitted(reader.on_message(message(1, 11)), 1, 11));
    assert!(is_emitted(reader.on_message(message(2, 1)), 2, 1));
}

#[test]
fn the_entries_that_a_seek_passes_over_are_reported() {
    let reader = KafkaReader::new("topic".to_string(), None);
    assert_eq!(reader.topic(), "topic");
    let mut frontier = OffsetAntichain::new();
    frontier.advance_offset(OffsetKey::Kafka("other".to_string(), 0), OffsetValue::KafkaOffset(100));
    frontier.advance_offset(OffsetKey::Kafka("topic".to_string(), 1), OffsetValue::KafkaOffset(10));
    frontier
        .advance_offset(OffsetKey::Kafka("topic".to_string(), 2), OffsetValue::PythonEntrySequentialId(10));
    frontier.advance_offset(OffsetKey::Empty, OffsetValue::KafkaOffset(77));
    frontier.advance_offset(OffsetKey::Kafka("other".to_string(), 5), OffsetValue::Empty);
    assert_eq!(
        reader.skipped_by_seek(&frontier),
        vec![
            (0, SeekSkip::OtherTopic),
            (2, SeekSkip::NotABusOffset),
            (3, SeekSkip::NotAPartition),
            (4, SeekSkip::NotABusOffset),
        ]
    );
    assert!(reader.skipped_by_seek(&OffsetAntichain::new()).is_empty());
}

#[test]
fn the_seek_behind_the_greatest_offset_stays_at_it() {
    let mut reader = KafkaReader::new("topic".to_string(), None);
    let mut frontier = OffsetAntichain::new();
    frontier
        .advance_offset(OffsetKey::Kafka("topic".to_string(), 0), OffsetValue::KafkaOffset(i64::MAX));
    reader.seek(&frontier);
    assert!(is_seek(reader.on_message(message(0, 5)), 0, i64::MAX));
}

#[test]
fn the_key_is_the_primary_key_in_little_endian_by_default() {
    let writer = KafkaWriter::new("out".to_string(), vec![], None);
    let data = context(vec![]);
    let key = writer.message_key(&data).unwrap();
    assert_eq!(key, data.key.to_le_bytes().to_vec());
    assert_eq!(key.len(), 16);
    assert_eq!(key[0], 0x10);
    assert_eq!(key[15], 0x01);
}

#[test]
fn the_key_is_the_designated_field_if_it_is_bytes_or_text() {
    let data = context(vec![
        Value::Bytes(vec![1, 2, 3]),
        Value::String("clé".to_string()),
        Value::Int(5),
    ]);
    let writer = KafkaWriter::new("out".to_string(), vec![], Some(0));
    assert_eq!(writer.message_key(&data), Ok(vec![1, 2, 3]));
    let writer = KafkaWriter::new("out".to_string(), vec![], Some(1));
    assert_eq!(writer.message_key(&data), Ok("clé".as_bytes().to_vec()));
    let writer = KafkaWriter::new("out".to_string(), vec![], Some(2));
    assert_eq!(writer.message_key(&data), Err(WriteError::IncorrectKeyFieldType(Value::Int(5))));
}

#[test]
fn headers_carry_time_and_sign_and_the_configured_fields() {
    let data = context(vec![Value::Bytes(vec![9, 8]), Value::Int(5)]);
    let rendered = vec!["unused".to_string(), "5".to_string()];
    let writer = KafkaWriter::new(
        "out".to_string(),
        vec![("raw".to_string(), 0), ("number".to_string(), 1)],
        None,
    );
    assert!(writer.accepts(&data, &rendered));
    let headers = writer.message_headers(&data, &rendered);
    assert_eq!(
        headers,
        vec![
            ("pathway_time".to_string(), b"42".to_vec()),
            ("pathway_diff".to_string(), b"-1".to_vec()),
            ("raw".to_string(), vec![9, 8]),
            ("number".to_string(), b"5".to_vec()),
        ]
    );
}

#[test]
fn a_record_that_lacks_a_configured_field_is_not_accepted() {
    let data = context(vec![Value::Int(5)]);
    let rendered = vec!["5".to_string()];
    assert!(KafkaWriter::new("out".to_string(), vec![], Some(0)).accepts(&data, &rendered));
    assert!(!KafkaWriter::new("out".to_string(), vec![], Some(1)).accepts(&data, &rendered));
    assert!(!KafkaWriter::new("out".to_string(), vec![("h".to_string(), 1)], None)
        .accepts(&data, &rendered));
    assert!(!KafkaWriter::new("out".to_string(), vec![], None).accepts(&data, &vec![]));
}

#[test]
fn one_message_is_written_for_each_payload() {
    let data = context(vec![Value::String("key".to_string())]);
    let rendered = vec!["\"key\"".to_string()];
    let writer = KafkaWriter::new("out".to_string(), vec![("h".to_string(), 0)], Some(0));
    let records = writer.write(&data, &rendered).unwrap();
    assert_eq!(records.len(), 2);
    assert_eq!(records[0].payload, b"first".to_vec());
    assert_eq!(records[1].payload, b"second".to_vec());
    for record in &records {
        assert_eq!(record.topic, "out");
        assert_eq!(record.key, b"key".to_vec());
        assert_eq!(record.headers.len(), 3);
        assert_eq!(record.headers[2], ("h".to_string(), b"\"key\"".to_vec()));
    }
    let writer = KafkaWriter::new("out".to_string(), vec![], Some(0));
    let data = context(vec![Value::Null]);
    assert_eq!(
        writer.write(&data, &vec!["None".to_string()]).unwrap_err(),
        WriteError::IncorrectKeyFieldType(Value::Null)
    );
    assert!(writer.retriable());
    assert!(!writer.single_threaded());
}

#[test]
fn a_full_queue_is_polled_and_the_message_sent_again() {
    let writer = KafkaWriter::new("out".to_string(), vec![], None);
    assert_eq!(writer.on_send_result(SendResult::Sent), SendStep::Done);
    assert_eq!(writer.on_send_result(SendResult::QueueFull), SendStep::PollAndRetry { millis: 10 });
    assert_eq!(
        writer.on_send_result(SendResult::Failed("broker down".to_string())),
        SendStep::Fail(WriteError::Kafka("broker down".to_string()))
    );
}
