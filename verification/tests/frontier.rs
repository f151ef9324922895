use pathway_connectors::offset::{
    incomparable_offsets, merge_two_frontiers, OffsetAntichain, OffsetKey, OffsetValue,
    StorageType,
};

fn frontier(entries: Vec<(OffsetKey, OffsetValue)>) -> OffsetAntichain {
    let mut result = OffsetAntichain::new();
    for (key, value) in entries {
        result.advance_offset(key, value);
    }
    result
}

fn partition(topic: &str, partition: i32) -> OffsetKey {
    OffsetKey::Kafka(topic.to_string(), partition)
}

fn file_position(total: u64, path: &str, bytes: u64) -> OffsetValue {
    OffsetValue::FilePosition {
        total_entries_read: total,
        path: path.to_string(),
        bytes_offset: bytes,
    }
}

#[test]
fn merge_takes_the_larger_bus_offset() {
    let a = frontier(vec![(partition("t", 0), OffsetValue::KafkaOffset(5))]);
    let b = frontier(vec![(partition("t", 0), OffsetValue::KafkaOffset(9))]);
    let expected = frontier(vec![(partition("t", 0), OffsetValue::KafkaOffset(9))]);
    assert!(merge_two_frontiers(&a, &b).same(&expected));
    assert!(merge_two_frontiers(&b, &a).same(&expected));
}

#[test]
fn merge_holds_every_key_of_either_side() {
    let a = frontier(vec![
        (partition("t", 0), OffsetValue::KafkaOffset(5)),
        (partition("t", 1), OffsetValue::KafkaOffset(7)),
    ]);
    let b = frontier(vec![
        (partition("t", 1), OffsetValue::KafkaOffset(3)),
        (partition("t", 2), OffsetValue::KafkaOffset(1)),
    ]);
    let expected = frontier(vec![
        (partition("t", 2), OffsetValue::KafkaOffset(1)),
        (partition("t", 1), OffsetValue::KafkaOffset(7)),
        (partition("t", 0), OffsetValue::KafkaOffset(5)),
    ]);
    let merged = merge_two_frontiers(&a, &b);
    assert_eq!(merged.len(), 3);
    assert!(merged.same(&expected));
    assert!(merge_two_frontiers(&b, &a).same(&merged));
}

#[test]
fn merge_orders_file_positions_by_entries_read() {
    let a = frontier(vec![(OffsetKey::Empty, file_position(10, "a.txt", 400))]);
    let b = frontier(vec![(OffsetKey::Empty, file_position(11, "b.txt", 3))]);
    let merged = merge_two_frontiers(&a, &b);
    assert_eq!(merged.get_offset(&OffsetKey::Empty), Some(&file_position(11, "b.txt", 3)));
    let merged = merge_two_frontiers(&b, &a);
    assert_eq!(merged.get_offset(&OffsetKey::Empty), Some(&file_position(11, "b.txt", 3)));
}

#[test]
fn merge_orders_sequential_ids_and_object_positions() {
    let a = frontier(vec![(OffsetKey::Empty, OffsetValue::PythonEntrySequentialId(4))]);
    let b = frontier(vec![(OffsetKey::Empty, OffsetValue::PythonEntrySequentialId(2))]);
    assert_eq!(
        merge_two_frontiers(&a, &b).get_offset(&OffsetKey::Empty),
        Some(&OffsetValue::PythonEntrySequentialId(4))
    );
    let early = OffsetValue::S3ObjectPosition {
        total_entries_read: 1,
        path: "k1".to_string(),
        bytes_offset: 9,
    };
    let late = OffsetValue::S3ObjectPosition {
        total_entries_read: 2,
        path: "k0".to_string(),
        bytes_offset: 1,
    };
    let a = frontier(vec![(OffsetKey::Empty, early)]);
    let b = frontier(vec![(OffsetKey::Empty, late.clone())]);
    assert_eq!(merge_two_frontiers(&a, &b).get_offset(&OffsetKey::Empty), Some(&late));
}

#[test]
fn merge_keeps_the_left_value_of_two_kinds() {
    let a = frontier(vec![(OffsetKey::Empty, OffsetValue::KafkaOffset(1))]);
    let b = frontier(vec![(OffsetKey::Empty, OffsetValue::PythonEntrySequentialId(100))]);
    assert_eq!(
        merge_two_frontiers(&a, &b).get_offset(&OffsetKey::Empty),
        Some(&OffsetValue::KafkaOffset(1))
    );
    assert_eq!(
        merge_two_frontiers(&b, &a).get_offset(&OffsetKey::Empty),
        Some(&OffsetValue::PythonEntrySequentialId(100))
    );
}

#[test]
fn merge_keeps_the_left_value_of_equal_positions() {
    let a = frontier(vec![(OffsetKey::Empty, file_position(3, "a", 1))]);
    let b = frontier(vec![(OffsetKey::Empty, file_position(3, "b", 2))]);
    assert_eq!(
        merge_two_frontiers(&a, &b).get_offset(&OffsetKey::Empty),
        Some(&file_position(3, "a", 1))
    );
    assert_eq!(
        merge_two_frontiers(&b, &a).get_offset(&OffsetKey::Empty),
        Some(&file_position(3, "b", 2))
    );
}

#[test]
fn merge_with_the_empty_frontier_changes_nothing() {
    let a = frontier(vec![(partition("t", 3), OffsetValue::KafkaOffset(12))]);
    let empty = OffsetAntichain::new();
    assert!(empty.is_empty());
    assert!(merge_two_frontiers(&a, &empty).same(&a));
    assert!(merge_two_frontiers(&empty, &a).same(&a));
}

#[test]
fn every_storage_type_merges_alike() {
    let a = frontier(vec![(partition("t", 0), OffsetValue::KafkaOffset(5))]);
    let b = frontier(vec![(partition("t", 0), OffsetValue::KafkaOffset(9))]);
    let expected = merge_two_frontiers(&a, &b);
    for storage in [
        StorageType::FileSystem,
        StorageType::S3Csv,
        StorageType::S3Lines,
        StorageType::CsvFilesystem,
        StorageType::Kafka,
        StorageType::Python,
        StorageType::Sqlite,
    ] {
        assert!(storage.merge_two_frontiers(&a, &b).same(&expected));
    }
}

#[test]
fn advance_offset_overwrites() {
    let mut f = OffsetAntichain::new();
    f.advance_offset(OffsetKey::Empty, OffsetValue::KafkaOffset(9));
    f.advance_offset(OffsetKey::Empty, OffsetValue::KafkaOffset(2));
    assert_eq!(f.len(), 1);
    assert_eq!(f.get_offset(&OffsetKey::Empty), Some(&OffsetValue::KafkaOffset(2)));
    assert_eq!(f.get_offset(&partition("t", 0)), None);
}

#[test]
fn positions_compare_within_their_kind_only() {
    assert!(OffsetValue::KafkaOffset(1).is_behind(&OffsetValue::KafkaOffset(2)));
    assert!(!OffsetValue::KafkaOffset(2).is_behind(&OffsetValue::KafkaOffset(2)));
    assert!(!OffsetValue::KafkaOffset(1).is_behind(&OffsetValue::PythonEntrySequentialId(2)));
    assert!(!OffsetValue::Empty.is_behind(&OffsetValue::Empty));
    assert!(file_position(1, "z", 9).is_behind(&file_position(2, "a", 0)));
}

#[test]
fn the_channels_that_hold_two_kinds_are_reported() {
    let lhs = frontier(vec![
        (partition("t", 0), OffsetValue::KafkaOffset(5)),
        (partition("t", 1), OffsetValue::KafkaOffset(5)),
        (OffsetKey::Empty, OffsetValue::Empty),
        (partition("t", 3), file_position(2, "a", 0)),
    ]);
    let rhs = frontier(vec![
        (partition("t", 3), OffsetValue::PythonEntrySequentialId(9)),
        (partition("t", 0), OffsetValue::KafkaOffset(4)),
        (OffsetKey::Empty, OffsetValue::Empty),
        (partition("t", 1), file_position(9, "a", 0)),
        (partition("t", 2), OffsetValue::KafkaOffset(1)),
    ]);
    assert_eq!(
        incomparable_offsets(&lhs, &rhs),
        vec![partition("t", 3), OffsetKey::Empty, partition("t", 1)]
    );
    assert!(incomparable_offsets(&lhs, &lhs).len() == 1);
    assert!(incomparable_offsets(&OffsetAntichain::new(), &rhs).is_empty());
    // the merge keeps the left position of each of them
    let merged = merge_two_frontiers(&lhs, &rhs);
    for key in incomparable_offsets(&lhs, &rhs) {
        assert!(merged.get_offset(&key).unwrap().same(lhs.get_offset(&key).unwrap()));
    }
    assert!(OffsetValue::KafkaOffset(1).is_comparable_with(&OffsetValue::KafkaOffset(1)));
    assert!(!OffsetValue::Empty.is_comparable_with(&OffsetValue::Empty));
    assert!(!OffsetValue::KafkaOffset(1).is_comparable_with(&OffsetValue::PythonEntrySequentialId(1)));
}
