use pathway_connectors::offset::{empty_offset, OffsetKey, OffsetValue};
use pathway_connectors::reader::{ReadResult, ReaderContext, SourceMetadata};
use pathway_connectors::string_map::StringMap;
use pathway_connectors::value::{clone_values, copy_of, DataEventType, Value, ValuesMap};

fn samples() -> Vec<Value> {
    vec![
        Value::Null,
        Value::Bool(true),
        Value::Bool(false),
        Value::Int(5),
        Value::Float(5),
        Value::Pointer(5),
        Value::String("5".to_string()),
        Value::Json("5".to_string()),
        Value::Bytes(vec![5]),
        Value::PyObjectWrapper(vec![5]),
        Value::Tuple(vec![Value::Int(5)]),
        Value::Tuple(vec![Value::Int(5), Value::Null]),
        Value::Tuple(vec![Value::Tuple(vec![Value::Int(5)])]),
        Value::IntArray(vec![1], vec![5]),
        Value::IntArray(vec![1, 1], vec![5]),
        Value::FloatArray(vec![1], vec![5]),
        Value::DateTimeNaive(5),
        Value::DateTimeUtc(5),
        Value::Duration(5),
        Value::Error,
    ]
}

#[test]
fn values_are_the_same_when_their_content_is() {
    let values = samples();
    for (i, a) in values.iter().enumerate() {
        for (j, b) in values.iter().enumerate() {
            assert_eq!(a.same(b), i == j, "{a:?} and {b:?}");
            assert_eq!(a.same(b), a == b);
        }
        assert!(a.clone().same(a));
    }
    assert!(Value::from_text("x").same(&Value::String("x".to_string())));
    assert_eq!(clone_values(&values), values);
    assert_eq!(copy_of(&vec![1u8, 2, 3]), vec![1, 2, 3]);
}

#[test]
fn records_are_the_same_whatever_the_order_of_their_fields() {
    let mut a = ValuesMap::new();
    a.insert("x".to_string(), Value::Int(1));
    a.insert("y".to_string(), Value::Int(2));
    let mut b = ValuesMap::new();
    b.insert("y".to_string(), Value::Int(2));
    b.insert("x".to_string(), Value::Int(1));
    assert!(a.same(&b));
    assert!(a.clone().same(&a));
    assert_eq!(a.len(), 2);
    b.insert("x".to_string(), Value::Int(3));
    assert!(!a.same(&b));
    assert_eq!(b.len(), 2);
    assert_eq!(b.get("x"), Some(&Value::Int(3)));
    let mut c = ValuesMap::new();
    c.insert("x".to_string(), Value::Int(1));
    assert!(!a.same(&c));
    assert!(!c.same(&a));
    assert!(ValuesMap::new().same(&ValuesMap::new()));
}

#[test]
fn a_record_is_special_when_its_only_field_is_the_special_one() {
    let mut record = ValuesMap::new();
    assert!(!record.is_special("x"));
    record.insert("_pw_special".to_string(), Value::String("x".to_string()));
    assert!(record.is_special("x"));
    assert!(!record.is_special("y"));
    record.insert("more".to_string(), Value::Null);
    assert!(!record.is_special("x"));
    let mut other = ValuesMap::new();
    other.insert("_pw_special".to_string(), Value::Int(1));
    assert!(!other.is_special("1"));
}

#[test]
fn string_maps_keep_the_order_of_insertion() {
    let mut map: StringMap<u64> = StringMap::new();
    assert!(map.is_empty());
    assert_eq!(map.insert("b".to_string(), 1), None);
    assert_eq!(map.insert("a".to_string(), 2), None);
    assert_eq!(map.insert("b".to_string(), 3), Some(1));
    assert_eq!(map.len(), 2);
    assert_eq!(map.key_at(0), "b");
    assert_eq!(map.value_at(0), &3);
    assert_eq!(map.key_at(1), "a");
    assert_eq!(map.position("a"), Some(1));
    assert_eq!(map.position("c"), None);
    assert!(map.contains_key("a"));
    assert_eq!(map.get("b"), Some(&3));
    assert_eq!(map.remove("b"), Some(3));
    assert_eq!(map.remove("b"), None);
    assert_eq!(map.key_at(0), "a");
    map.clear();
    assert!(map.is_empty());
    assert_eq!(map.get("a"), None);
}

#[test]
fn read_results_are_compared_by_content() {
    let metadata = |owner: Option<&str>| SourceMetadata {
        created_at: Some(1),
        modified_at: None,
        owner: owner.map(|o| o.to_string()),
        path: "p".to_string(),
        seen_at: 2,
    };
    assert!(metadata(Some("o")).same(&metadata(Some("o")).clone()));
    assert!(!metadata(Some("o")).same(&metadata(None)));
    assert!(!metadata(Some("o")).same(&metadata(Some("p"))));
    let results = || {
        vec![
            ReadResult::Finished,
            ReadResult::NewSource(None),
            ReadResult::NewSource(Some(metadata(None))),
            ReadResult::FinishedSource { commit_allowed: true },
            ReadResult::FinishedSource { commit_allowed: false },
            ReadResult::Data(
                ReaderContext::from_raw_bytes(DataEventType::Insert, vec![1]),
                empty_offset(),
            ),
            ReadResult::Data(
                ReaderContext::from_raw_bytes(DataEventType::Delete, vec![1]),
                empty_offset(),
            ),
            ReadResult::Data(
                ReaderContext::from_raw_bytes(DataEventType::Insert, vec![1]),
                (OffsetKey::Empty, OffsetValue::KafkaOffset(1)),
            ),
            ReadResult::Data(
                ReaderContext::from_tokenized_entries(DataEventType::Insert, vec!["1".to_string()]),
                empty_offset(),
            ),
            ReadResult::Data(ReaderContext::from_key_value(Some(vec![1]), None), empty_offset()),
            ReadResult::Data(ReaderContext::from_key_value(None, Some(vec![1])), empty_offset()),
            ReadResult::Data(
                ReaderContext::from_diff(DataEventType::Insert, None, ValuesMap::new()),
                empty_offset(),
            ),
            ReadResult::Data(
                ReaderContext::from_diff(DataEventType::Insert, Some(vec![]), ValuesMap::new()),
                empty_offset(),
            ),
        ]
    };
    let (left, right) = (results(), results());
    for (i, a) in left.iter().enumerate() {
        for (j, b) in right.iter().enumerate() {
            assert_eq!(a.same(b), i == j, "{a:?} and {b:?}");
        }
    }
}
