use pathway_connectors::offset::{OffsetKey, OffsetValue, StorageType};
use pathway_connectors::reader::{ReadError, ReadResult, ReaderContext};
use pathway_connectors::sqlite::{row_values, SqliteCell, SqliteReader};
use pathway_connectors::value::{DataEventType, Value, ValuesMap};

fn values(name: &str, age: i64) -> ValuesMap {
    let mut map = ValuesMap::new();
    map.insert("name".to_string(), Value::String(name.to_string()));
    map.insert("age".to_string(), Value::Int(age));
    map
}

fn diff(event: DataEventType, rowid: i64, values: ValuesMap) -> ReadResult {
    ReadResult::Data(
        ReaderContext::from_diff(event, Some(vec![Value::Int(rowid)]), values),
        (OffsetKey::Empty, OffsetValue::Empty),
    )
}

fn reader() -> SqliteReader {
    SqliteReader::new("people".to_string(), vec!["name".to_string(), "age".to_string()])
}

fn drain(reader: &mut SqliteReader) -> Vec<ReadResult> {
    let mut results = Vec::new();
    while let Some(result) = reader.take_queued() {
        results.push(result);
    }
    results
}

fn same(found: &[ReadResult], expected: &[ReadResult]) -> bool {
    found.len() == expected.len() && found.iter().zip(expected).all(|(a, b)| a.same(b))
}

#[test]
fn the_query_reads_the_columns_and_the_row_id() {
    assert_eq!(reader().query(), "SELECT name,age,_rowid_ FROM people");
    let single = SqliteReader::new("t".to_string(), vec!["a".to_string()]);
    assert_eq!(single.query(), "SELECT a,_rowid_ FROM t");
    assert_eq!(single.column_names(), &vec!["a".to_string()]);
    assert_eq!(SqliteReader::wait_period(), 500);
}

#[test]
fn the_first_reading_inserts_every_row() {
    let mut reader = reader();
    assert!(reader.needs_reload(1));
    let begun = reader.on_table(1, &vec![(1, values("ann", 30)), (2, values("bob", 20))]);
    assert!(begun.same(&ReadResult::NewSource(None)));
    assert!(!reader.needs_reload(1));
    assert!(reader.needs_reload(2));
    let events = drain(&mut reader);
    assert!(same(
        &events,
        &[
            diff(DataEventType::Insert, 1, values("ann", 30)),
            diff(DataEventType::Insert, 2, values("bob", 20)),
            ReadResult::FinishedSource { commit_allowed: true },
        ]
    ));
    assert!(reader.take_queued().is_none());
}

#[test]
fn a_reading_reports_changes_then_removals() {
    let mut reader = reader();
    reader.load_table(&vec![(1, values("ann", 30)), (2, values("bob", 20)), (3, values("cy", 5))]);
    drain(&mut reader);
    // row 3 is changed, row 1 is gone, row 2 is as it was, row 4 is new
    reader.load_table(&vec![(3, values("cy", 6)), (2, values("bob", 20)), (4, values("di", 1))]);
    let events = drain(&mut reader);
    assert!(same(
        &events,
        &[
            diff(DataEventType::Delete, 3, values("cy", 5)),
            diff(DataEventType::Insert, 3, values("cy", 6)),
            diff(DataEventType::Insert, 4, values("di", 1)),
            diff(DataEventType::Delete, 1, values("ann", 30)),
            ReadResult::FinishedSource { commit_allowed: true },
        ]
    ));
}

#[test]
fn a_reading_without_difference_queues_nothing() {
    let mut reader = reader();
    reader.load_table(&vec![(1, values("ann", 30))]);
    drain(&mut reader);
    reader.load_table(&vec![(1, values("ann", 30))]);
    assert!(reader.take_queued().is_none());
    let mut empty = SqliteReader::new("t".to_string(), vec![]);
    empty.load_table(&vec![]);
    assert!(empty.take_queued().is_none());
}

#[test]
fn rows_that_are_gone_are_reported_in_the_order_they_were_first_seen() {
    let mut reader = reader();
    reader.load_table(&vec![(9, values("i", 9)), (2, values("b", 2)), (5, values("e", 5))]);
    drain(&mut reader);
    reader.load_table(&vec![]);
    let events = drain(&mut reader);
    assert!(same(
        &events,
        &[
            diff(DataEventType::Delete, 9, values("i", 9)),
            diff(DataEventType::Delete, 2, values("b", 2)),
            diff(DataEventType::Delete, 5, values("e", 5)),
            ReadResult::FinishedSource { commit_allowed: true },
        ]
    ));
    // a row that comes back is new again
    reader.load_table(&vec![(2, values("b", 2))]);
    let events = drain(&mut reader);
    assert!(same(
        &events,
        &[
            diff(DataEventType::Insert, 2, values("b", 2)),
            ReadResult::FinishedSource { commit_allowed: true },
        ]
    ));
}

#[test]
fn a_row_that_occurs_twice_counts_as_changed() {
    let mut reader = reader();
    reader.load_table(&vec![(1, values("ann", 30)), (1, values("ann", 31))]);
    let events = drain(&mut reader);
    assert!(same(
        &events,
        &[
            diff(DataEventType::Insert, 1, values("ann", 30)),
            diff(DataEventType::Delete, 1, values("ann", 30)),
            diff(DataEventType::Insert, 1, values("ann", 31)),
            ReadResult::FinishedSource { commit_allowed: true },
        ]
    ));
}

#[test]
fn fields_become_values() {
    assert_eq!(Value::column_result(SqliteCell::Null), Ok(Value::Null));
    assert_eq!(Value::column_result(SqliteCell::Integer(-3)), Ok(Value::Int(-3)));
    assert_eq!(
        Value::column_result(SqliteCell::Real(6.4f64.to_bits())),
        Ok(Value::Float(6.4f64.to_bits()))
    );
    assert_eq!(
        Value::column_result(SqliteCell::Text("héllo".as_bytes().to_vec())),
        Ok(Value::String("héllo".to_string()))
    );
    assert_eq!(Value::column_result(SqliteCell::Blob(vec![0xff, 0])), Ok(Value::Bytes(vec![0xff, 0])));
    assert!(matches!(Value::column_result(SqliteCell::Text(vec![0xff, 0xfe])), Err(ReadError::Sqlite(_))));
    assert!(matches!(Value::column_result(SqliteCell::Text(vec![0xc3])), Err(ReadError::Sqlite(_))));
}

#[test]
fn the_fields_of_a_row_are_named_by_their_columns() {
    let names = vec!["name".to_string(), "age".to_string()];
    let row = row_values(&names, vec![SqliteCell::Text(b"ann".to_vec()), SqliteCell::Integer(30)])
        .unwrap();
    assert!(row.same(&values("ann", 30)));
    assert_eq!(row.get("age"), Some(&Value::Int(30)));
    assert_eq!(row.get("missing"), None);
    let bad = row_values(&names, vec![SqliteCell::Text(vec![0x80]), SqliteCell::Integer(30)]);
    assert!(matches!(bad, Err(ReadError::Sqlite(_))));
}

#[test]
fn the_state_of_the_reader_is_not_persisted() {
    let mut reader = reader();
    assert_eq!(reader.storage_type(), StorageType::Sqlite);
    assert_eq!(reader.persistent_id(), None);
    assert_eq!(reader.max_allowed_consecutive_errors(), 0);
    reader.update_persistent_id(None);
    assert_eq!(reader.persistent_id(), None);
}
