use pathway_connectors::offset::{OffsetAntichain, OffsetKey, OffsetValue, StorageType};
use pathway_connectors::python::{PythonReader, PythonReaderBuilder, PythonStep};
use pathway_connectors::reader::{ReadError, ReadResult, ReaderContext};
use pathway_connectors::value::{DataEventType, Value, ValuesMap};

fn values(field: &str, value: Value) -> ValuesMap {
    let mut map = ValuesMap::new();
    map.insert(field.to_string(), value);
    map
}

fn finish() -> ValuesMap {
    values("_pw_special", Value::String("*FINISH*".to_string()))
}

fn reader(deletions_enabled: bool) -> PythonReader {
    PythonReaderBuilder::new(false, deletions_enabled, Some(8)).build()
}

fn entry(event: DataEventType, key: Option<Value>, field: &str, value: Value, id: u64) -> ReadResult {
    ReadResult::Data(
        ReaderContext::from_diff(event, key.map(|k| vec![k]), values(field, value)),
        (OffsetKey::Empty, OffsetValue::PythonEntrySequentialId(id)),
    )
}

#[test]
fn the_builder_hands_its_settings_to_the_reader() {
    let mut builder = PythonReaderBuilder::new(true, false, Some(8));
    assert!(builder.is_internal());
    assert_eq!(builder.persistent_id(), Some(8));
    assert_eq!(builder.storage_type(), StorageType::Python);
    builder.update_persistent_id(Some(9));
    let mut reader = builder.build();
    assert_eq!(reader.persistent_id(), Some(9));
    assert_eq!(reader.storage_type(), StorageType::Python);
    assert_eq!(reader.max_allowed_consecutive_errors(), 0);
    reader.update_persistent_id(None);
    assert_eq!(reader.persistent_id(), None);
    assert!(!PythonReaderBuilder::new(false, false, None).is_internal());
}

#[test]
fn the_subject_is_started_before_it_is_read() {
    let mut reader = reader(false);
    assert_eq!(reader.next_step(), PythonStep::Start);
    reader.on_started();
    assert_eq!(reader.next_step(), PythonStep::Read);
    assert_eq!(reader.next_step(), PythonStep::Read);
}

#[test]
fn entries_get_sequential_ids_from_one() {
    let mut reader = reader(false);
    reader.on_started();
    assert!(reader.can_take_entry(DataEventType::Insert, &values("a", Value::Int(1))));
    let first = reader
        .on_entry(DataEventType::Insert, Some(Value::Int(7)), values("a", Value::Int(1)))
        .unwrap();
    assert!(first.same(&entry(DataEventType::Insert, Some(Value::Int(7)), "a", Value::Int(1), 1)));
    let second =
        reader.on_entry(DataEventType::Insert, None, values("a", Value::Int(2))).unwrap();
    assert!(second.same(&entry(DataEventType::Insert, None, "a", Value::Int(2), 2)));
}

#[test]
fn the_sentinel_finishes_the_stream() {
    let mut reader = reader(false);
    reader.on_started();
    reader.on_entry(DataEventType::Insert, None, values("a", Value::Int(1))).unwrap();
    let last = reader.on_entry(DataEventType::Insert, None, finish()).unwrap();
    assert!(last.same(&ReadResult::Finished));
    assert_eq!(reader.next_step(), PythonStep::Finished);
}

#[test]
fn only_the_exact_sentinel_finishes_the_stream() {
    let mut reader = reader(false);
    reader.on_started();
    let mut two_fields = finish();
    two_fields.insert("other".to_string(), Value::Int(1));
    let candidates = vec![
        values("_pw_special", Value::String("*FINISH".to_string())),
        values("_pw_special", Value::Bytes(b"*FINISH*".to_vec())),
        values("special", Value::String("*FINISH*".to_string())),
        two_fields,
        ValuesMap::new(),
    ];
    let mut id = 0;
    for candidate in candidates {
        id += 1;
        match reader.on_entry(DataEventType::Insert, None, candidate).unwrap() {
            ReadResult::Data(_, (_, offset)) => {
                assert_eq!(offset, OffsetValue::PythonEntrySequentialId(id))
            }
            other => panic!("unexpected result {other:?}"),
        }
    }
    assert_eq!(reader.next_step(), PythonStep::Read);
    assert!(finish().is_special("*FINISH*"));
    assert!(!finish().is_special("*FINISH"));
}

#[test]
fn deletions_are_refused_unless_the_subject_enables_them() {
    let mut strict = reader(false);
    strict.on_started();
    for event in [DataEventType::Delete, DataEventType::Upsert] {
        let refused = strict.on_entry(event, None, values("a", Value::Int(1)));
        assert!(matches!(refused, Err(ReadError::Py(_))));
    }
    // a refused entry takes no id
    let next = strict.on_entry(DataEventType::Insert, None, values("a", Value::Int(1))).unwrap();
    assert!(next.same(&entry(DataEventType::Insert, None, "a", Value::Int(1), 1)));
    // even the sentinel is refused as a deletion
    assert!(strict.on_entry(DataEventType::Delete, None, finish()).is_err());

    let mut lenient = reader(true);
    lenient.on_started();
    let deleted = lenient
        .on_entry(DataEventType::Delete, Some(Value::Int(1)), values("a", Value::Int(1)))
        .unwrap();
    assert!(deleted.same(&entry(DataEventType::Delete, Some(Value::Int(1)), "a", Value::Int(1), 1)));
}

#[test]
fn entries_that_are_not_counted_are_taken_when_the_count_is_full() {
    let mut reader = reader(false);
    let mut frontier = OffsetAntichain::new();
    frontier.advance_offset(OffsetKey::Empty, OffsetValue::PythonEntrySequentialId(u64::MAX));
    reader.seek(&frontier);
    reader.on_started();
    assert!(!reader.can_take_entry(DataEventType::Insert, &values("a", Value::Int(1))));
    // a refused entry is not counted
    assert!(reader.can_take_entry(DataEventType::Delete, &values("a", Value::Int(1))));
    assert!(matches!(
        reader.on_entry(DataEventType::Delete, None, values("a", Value::Int(1))),
        Err(ReadError::Py(_))
    ));
    // nor is the record that announces the end
    assert!(reader.can_take_entry(DataEventType::Insert, &finish()));
    let end = reader.on_entry(DataEventType::Insert, None, finish()).unwrap();
    assert!(end.same(&ReadResult::Finished));
    assert_eq!(reader.next_step(), PythonStep::Finished);
}

#[test]
fn seek_restores_the_count_of_entries() {
    let mut reader = reader(false);
    let mut frontier = OffsetAntichain::new();
    frontier.advance_offset(OffsetKey::Empty, OffsetValue::PythonEntrySequentialId(41));
    reader.seek(&frontier);
    reader.on_started();
    let next = reader.on_entry(DataEventType::Insert, None, values("a", Value::Int(1))).unwrap();
    assert!(next.same(&entry(DataEventType::Insert, None, "a", Value::Int(1), 42)));

    let mut other = OffsetAntichain::new();
    other.advance_offset(OffsetKey::Empty, OffsetValue::KafkaOffset(5));
    reader.seek(&other);
    reader.seek(&OffsetAntichain::new());
    let next = reader.on_entry(DataEventType::Insert, None, values("a", Value::Int(1))).unwrap();
    assert!(next.same(&entry(DataEventType::Insert, None, "a", Value::Int(1), 43)));
}
