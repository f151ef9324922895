use pathway_connectors::filesystem::ReadMethod;
use pathway_connectors::offset::{OffsetAntichain, OffsetKey, OffsetValue, StorageType};
use pathway_connectors::reader::{ReadError, ReadResult, ReaderContext, S3CommandName, S3Failure};
use pathway_connectors::s3::{
    check_get_object_status, next_object, object_less, objects_done_at, read_instants,
    rewind_check, ObjectEntry, ObjectPlacement, RewindCheck, S3CsvReader, S3GenericReader,
    S3Scanner, TimedObject,
};
use pathway_connectors::string_map::StringMap;
use pathway_connectors::value::DataEventType;

fn object(key: &str, last_modified: &str) -> ObjectEntry {
    ObjectEntry { key: key.to_string(), last_modified: last_modified.to_string() }
}

fn listing() -> Vec<ObjectEntry> {
    vec![
        object("in/c", "2024-01-01T00:00:03Z"),
        object("in/b", "2024-01-01T00:00:02Z"),
        object("in/a", "2024-01-01T00:00:02Z"),
        object("in/unreadable", "yesterday"),
    ]
}

fn position(total: u64, path: &str, bytes: u64) -> OffsetAntichain {
    let mut frontier = OffsetAntichain::new();
    frontier.advance_offset(
        OffsetKey::Empty,
        OffsetValue::S3ObjectPosition {
            total_entries_read: total,
            path: path.to_string(),
            bytes_offset: bytes,
        },
    );
    frontier
}

fn line(bytes: &[u8], total: u64, path: &str, position: u64) -> ReadResult {
    ReadResult::Data(
        ReaderContext::from_raw_bytes(DataEventType::Insert, bytes.to_vec()),
        (
            OffsetKey::Empty,
            OffsetValue::S3ObjectPosition {
                total_entries_read: total,
                path: path.to_string(),
                bytes_offset: position,
            },
        ),
    )
}

fn record(fields: &[&str], total: u64, path: &str, position: u64) -> ReadResult {
    ReadResult::Data(
        ReaderContext::from_tokenized_entries(
            DataEventType::Insert,
            fields.iter().map(|f| f.to_string()).collect(),
        ),
        (
            OffsetKey::Empty,
            OffsetValue::S3ObjectPosition {
                total_entries_read: total,
                path: path.to_string(),
                bytes_offset: position,
            },
        ),
    )
}

#[test]
fn an_empty_bucket_is_refused() {
    assert_eq!(S3Scanner::new("in/".to_string(), &vec![]).unwrap_err(), ReadError::NoObjectsToRead);
    assert!(S3GenericReader::new("in/".to_string(), &vec![], false, None, ReadMethod::ByLine)
        .is_err());
    assert!(S3CsvReader::new("in/".to_string(), &vec![], false, None).is_err());
    assert!(S3Scanner::new("in/".to_string(), &listing()).is_ok());
}

#[test]
fn objects_are_streamed_oldest_first_and_by_key_among_equals() {
    let mut scanner = S3Scanner::new("in/".to_string(), &listing()).unwrap();
    assert_eq!(scanner.objects_prefix(), "in/");
    assert!(!scanner.has_current_object());
    assert_eq!(scanner.stream_next_object(&listing()), Some("in/a".to_string()));
    assert_eq!(scanner.expect_current_object_path(), "in/a");
    assert_eq!(scanner.stream_next_object(&listing()), Some("in/b".to_string()));
    assert_eq!(scanner.stream_next_object(&listing()), Some("in/c".to_string()));
    assert_eq!(scanner.stream_next_object(&listing()), None);
    assert!(!scanner.has_current_object());
}

#[test]
fn instants_are_compared_across_time_zones() {
    let objects = vec![
        object("utc", "2024-01-01T00:30:00Z"),
        object("east", "2024-01-01T01:00:00+01:00"),
        object("fraction", "2024-01-01T00:00:00.5Z"),
    ];
    let mut scanner = S3Scanner::new(String::new(), &objects).unwrap();
    assert_eq!(scanner.stream_next_object(&objects), Some("east".to_string()));
    assert_eq!(scanner.stream_next_object(&objects), Some("fraction".to_string()));
    assert_eq!(scanner.stream_next_object(&objects), Some("utc".to_string()));
    assert!(object_less((1, 0), "b", (2, 0), "a"));
    assert!(object_less((1, 1), "b", (1, 2), "a"));
    assert!(object_less((1, 1), "a", (1, 1), "b"));
    assert!(!object_less((1, 1), "a", (1, 1), "a"));
    assert!(object_less((-5, 0), "a", (0, 0), "a"));
}

#[test]
fn seek_marks_the_objects_before_the_target_as_done() {
    let mut scanner = S3Scanner::new("in/".to_string(), &listing()).unwrap();
    scanner.seek_to_object("in/b", &listing());
    // in/a and in/b are done with; in/c follows
    assert_eq!(scanner.stream_next_object(&listing()), Some("in/c".to_string()));
    assert_eq!(scanner.stream_next_object(&listing()), None);
}

#[test]
fn a_seek_marks_what_a_run_is_done_with() {
    let keys = ["in/a", "in/b", "in/c"];
    let mut run = S3Scanner::new("in/".to_string(), &listing()).unwrap();
    for (taken, key) in keys.iter().enumerate() {
        assert_eq!(run.stream_next_object(&listing()), Some(key.to_string()));
        let mut sought = S3Scanner::new("in/".to_string(), &listing()).unwrap();
        sought.seek_to_object(key, &listing());
        // what follows the seek is what follows in the run
        for rest in &keys[taken + 1..] {
            assert_eq!(sought.stream_next_object(&listing()), Some(rest.to_string()));
        }
        assert_eq!(sought.stream_next_object(&listing()), None);
    }
    assert_eq!(run.stream_next_object(&listing()), None);
}

fn timed(key: &str, instant: Option<(i64, u32)>) -> TimedObject {
    TimedObject { key: key.to_string(), instant }
}

fn sorted_keys(map: &StringMap<()>) -> Vec<String> {
    let mut keys: Vec<String> = (0..map.len()).map(|i| map.key_at(i).clone()).collect();
    keys.sort();
    keys
}

fn done(keys: &[&str]) -> StringMap<()> {
    let mut set = StringMap::new();
    for key in keys {
        set.insert(key.to_string(), ());
    }
    set
}

#[test]
fn the_times_of_a_listing_are_read_as_instants() {
    let objects = read_instants(&listing());
    let found: Vec<(String, Option<(i64, u32)>)> =
        objects.into_iter().map(|object| (object.key, object.instant)).collect();
    assert_eq!(
        found,
        vec![
            ("in/c".to_string(), Some((1_704_067_203, 0))),
            ("in/b".to_string(), Some((1_704_067_202, 0))),
            ("in/a".to_string(), Some((1_704_067_202, 0))),
            ("in/unreadable".to_string(), None),
        ]
    );
    let fraction = read_instants(&vec![object("k", "1970-01-01T01:00:01.5+01:00")]);
    assert_eq!(fraction[0].instant, Some((1, 500_000_000)));
}

#[test]
fn the_next_object_is_the_earliest_that_is_not_done_with() {
    let objects = vec![
        timed("z", Some((5, 0))),
        timed("late", Some((9, 0))),
        timed("b", Some((5, 0))),
        timed("untimed", None),
        timed("a", Some((5, 1))),
        timed("early", Some((-3, 999_999_999))),
    ];
    assert_eq!(next_object(&objects, &done(&[])), Some(5));
    assert_eq!(next_object(&objects, &done(&["early"])), Some(2));
    assert_eq!(next_object(&objects, &done(&["early", "b"])), Some(0));
    assert_eq!(next_object(&objects, &done(&["early", "b", "z"])), Some(4));
    assert_eq!(next_object(&objects, &done(&["early", "b", "z", "a"])), Some(1));
    assert_eq!(next_object(&objects, &done(&["early", "b", "z", "a", "late"])), None);
    assert_eq!(next_object(&vec![], &done(&[])), None);
    // of two entries of one key and instant, the first in the listing is picked
    let twice = vec![timed("k", Some((1, 0))), timed("k", Some((1, 0)))];
    assert_eq!(next_object(&twice, &done(&[])), Some(0));
}

#[test]
fn a_seek_marks_the_objects_up_to_the_target() {
    let objects = vec![
        timed("z", Some((5, 0))),
        timed("late", Some((9, 0))),
        timed("b", Some((5, 0))),
        timed("untimed", None),
        timed("a", Some((5, 1))),
        timed("early", Some((-3, 0))),
    ];
    assert_eq!(sorted_keys(&objects_done_at(&objects, "z")), vec!["b", "early", "z"]);
    assert_eq!(sorted_keys(&objects_done_at(&objects, "early")), vec!["early"]);
    assert!(objects_done_at(&objects, "untimed").is_empty());
    assert!(objects_done_at(&objects, "nowhere").is_empty());
    // what is picked after the seek is what follows the target
    assert_eq!(next_object(&objects, &objects_done_at(&objects, "z")), Some(4));
}

#[test]
fn seek_to_an_unknown_object_marks_nothing() {
    let mut scanner = S3Scanner::new("in/".to_string(), &listing()).unwrap();
    scanner.stream_next_object(&listing());
    scanner.seek_to_object("in/nowhere", &listing());
    assert_eq!(scanner.stream_next_object(&listing()), Some("in/a".to_string()));
    scanner.seek_to_object("in/unreadable", &listing());
    assert_eq!(scanner.stream_next_object(&listing()), Some("in/a".to_string()));
}

#[test]
fn only_the_status_200_is_good() {
    assert_eq!(check_get_object_status(200), Ok(()));
    for code in [0, 199, 201, 204, 404, 500] {
        assert_eq!(
            check_get_object_status(code),
            Err(ReadError::S3(S3CommandName::GetObject, S3Failure::HttpFail))
        );
    }
}

#[test]
fn a_rewind_tolerates_a_missing_last_line_feed() {
    assert_eq!(rewind_check(10, 10), RewindCheck::Exact);
    assert_eq!(rewind_check(11, 10), RewindCheck::TrailingNewline);
    assert_eq!(rewind_check(12, 10), RewindCheck::TrailingNewline);
    assert_eq!(rewind_check(13, 10), RewindCheck::Inconsistent);
    assert_eq!(rewind_check(9, 10), RewindCheck::Inconsistent);
    assert_eq!(rewind_check(u64::MAX, u64::MAX - 1), RewindCheck::TrailingNewline);
    assert_eq!(rewind_check(0, u64::MAX), RewindCheck::Inconsistent);
    assert_eq!(S3GenericReader::sleep_duration(), 10000);
    assert_eq!(S3CsvReader::sleep_duration(), 10000);
}

#[test]
fn lines_of_objects_are_handed_on_with_the_bytes_read() {
    let mut reader =
        S3GenericReader::new("in/".to_string(), &listing(), false, Some(4), ReadMethod::ByLine)
            .unwrap();
    assert_eq!(reader.storage_type(), StorageType::S3Lines);
    assert_eq!(reader.persistent_id(), Some(4));
    assert_eq!(reader.objects_prefix(), "in/");
    assert_eq!(reader.max_allowed_consecutive_errors(), 0);
    assert!(!reader.is_reading());
    let step = reader.on_listing(&listing());
    assert_eq!(step.stream, Some("in/a".to_string()));
    assert!(step.result.unwrap().same(&ReadResult::NewSource(None)));
    assert!(reader.is_reading());
    assert!(reader.can_take_bytes(3));
    assert!(reader.on_bytes(b"ab\n".to_vec()).unwrap().same(&line(b"ab\n", 1, "in/a", 3)));
    assert!(reader.on_bytes(b"c\n".to_vec()).unwrap().same(&line(b"c\n", 2, "in/a", 5)));
    assert!(reader.on_bytes(Vec::new()).is_none());
    let step = reader.on_listing(&listing());
    assert_eq!(step.stream, Some("in/b".to_string()));
    assert!(reader.on_bytes(b"d".to_vec()).unwrap().same(&line(b"d", 3, "in/b", 1)));
    assert!(reader.on_bytes(Vec::new()).is_none());
    assert_eq!(reader.on_listing(&listing()).stream, Some("in/c".to_string()));
    assert!(reader.on_bytes(Vec::new()).is_none());
    let step = reader.on_listing(&listing());
    assert_eq!(step.stream, None);
    assert!(step.result.unwrap().same(&ReadResult::Finished));
}

#[test]
fn a_reader_that_polls_goes_on_reading_the_stream_that_is_at_its_end() {
    let one = vec![object("in/a", "2024-01-01T00:00:02Z")];
    let mut reader =
        S3GenericReader::new("in/".to_string(), &one, true, None, ReadMethod::ByLine).unwrap();
    assert_eq!(reader.on_listing(&one).stream, Some("in/a".to_string()));
    assert!(reader.on_bytes(b"x\n".to_vec()).unwrap().same(&line(b"x\n", 1, "in/a", 2)));
    assert!(reader.can_take_bytes(0));
    assert!(reader.on_bytes(Vec::new()).is_none());

    // the listing is exhausted: nothing is streamed, and the reader waits
    for _ in 0..3 {
        let step = reader.on_listing(&one);
        assert_eq!(step.stream, None);
        assert!(step.result.is_none());
        // the stream that is at its end is read again: no bytes, nothing to hand on
        assert!(reader.is_reading());
        assert!(reader.can_take_bytes(0));
        assert!(!reader.can_take_bytes(1));
        assert!(reader.on_bytes(Vec::new()).is_none());
    }

    // an object that appears later is taken up, and the count goes on
    let two = vec![object("in/a", "2024-01-01T00:00:02Z"), object("in/b", "2024-01-01T00:00:09Z")];
    assert_eq!(reader.on_listing(&two).stream, Some("in/b".to_string()));
    assert!(reader.can_take_bytes(1));
    assert!(reader.on_bytes(b"y".to_vec()).unwrap().same(&line(b"y", 2, "in/b", 1)));
}

#[test]
fn a_read_of_no_bytes_is_taken_after_the_stream_has_finished() {
    let one = vec![object("in/a", "2024-01-01T00:00:02Z")];
    let mut reader =
        S3GenericReader::new("in/".to_string(), &one, false, None, ReadMethod::ByLine).unwrap();
    reader.on_listing(&one);
    assert!(reader.on_bytes(Vec::new()).is_none());
    assert!(reader.on_listing(&one).result.unwrap().same(&ReadResult::Finished));
    assert!(reader.can_take_bytes(0));
    assert!(reader.on_bytes(Vec::new()).is_none());
    assert!(reader.on_listing(&one).result.unwrap().same(&ReadResult::Finished));
}

#[test]
fn a_whole_object_is_one_entry_followed_by_its_end() {
    let mut reader =
        S3GenericReader::new("in/".to_string(), &listing(), true, None, ReadMethod::Full).unwrap();
    reader.on_listing(&listing());
    assert!(reader.on_bytes(b"ab\ncd".to_vec()).unwrap().same(&line(b"ab\ncd", 1, "in/a", 5)));
    assert!(!reader.is_reading());
    assert!(reader
        .take_deferred()
        .unwrap()
        .same(&ReadResult::FinishedSource { commit_allowed: true }));
    assert!(reader.take_deferred().is_none());
    reader.on_listing(&listing());
    reader.on_listing(&listing());
    // a polling reader waits where the bucket holds nothing new
    let step = reader.on_listing(&listing());
    assert!(step.result.is_none());
    assert_eq!(step.stream, None);
    reader.update_persistent_id(Some(2));
    assert_eq!(reader.persistent_id(), Some(2));
}

#[test]
fn a_seek_into_an_object_skips_the_bytes_before_the_offset() {
    let mut reader =
        S3GenericReader::new("in/".to_string(), &listing(), false, None, ReadMethod::ByLine)
            .unwrap();
    let frontier = position(5, "in/b", 6);
    let placement = reader.seek(&frontier, &listing()).unwrap();
    assert_eq!(placement, ObjectPlacement { path: "in/b".to_string(), bytes_offset: 6 });
    assert!(reader.is_reading());
    assert!(reader.wants_rewind(placement.bytes_offset));
    assert!(reader.on_rewind_bytes(3));
    assert!(reader.wants_rewind(placement.bytes_offset));
    assert!(reader.on_rewind_bytes(3));
    assert!(!reader.wants_rewind(placement.bytes_offset));
    assert!(reader.on_bytes(b"xy\n".to_vec()).unwrap().same(&line(b"xy\n", 6, "in/b", 9)));
    assert!(reader.on_bytes(Vec::new()).is_none());
    assert_eq!(reader.on_listing(&listing()).stream, Some("in/c".to_string()));

    let mut reader =
        S3GenericReader::new("in/".to_string(), &listing(), false, None, ReadMethod::ByLine)
            .unwrap();
    assert!(reader.seek(&OffsetAntichain::new(), &listing()).is_none());
    assert!(!reader.is_reading());
    reader.seek(&frontier, &listing());
    // the object ends before the offset is reached
    assert!(!reader.on_rewind_bytes(0));
}

#[test]
fn records_of_delimited_objects_are_handed_on_with_their_position() {
    let mut reader = S3CsvReader::new("in/".to_string(), &listing(), false, Some(1)).unwrap();
    assert_eq!(reader.storage_type(), StorageType::S3Csv);
    assert_eq!(reader.persistent_id(), Some(1));
    assert_eq!(reader.objects_prefix(), "in/");
    assert_eq!(reader.max_allowed_consecutive_errors(), 0);
    assert!(!reader.is_reading());
    assert!(!reader.can_take_record());
    let step = reader.on_listing(&listing());
    assert_eq!(step.stream, Some("in/a".to_string()));
    assert!(step.result.unwrap().same(&ReadResult::NewSource(None)));
    assert!(reader.is_reading());
    assert!(reader.can_take_record());
    let tokens = |fields: &[&str]| fields.iter().map(|f| f.to_string()).collect::<Vec<_>>();
    assert!(reader.on_record(tokens(&["a", "b"]), 4).same(&record(&["a", "b"], 1, "in/a", 4)));
    assert!(reader.on_record(tokens(&["1", "2"]), 8).same(&record(&["1", "2"], 2, "in/a", 8)));
    assert_eq!(reader.on_listing(&listing()).stream, Some("in/b".to_string()));
    assert!(reader.on_record(tokens(&["a", "b"]), 4).same(&record(&["a", "b"], 3, "in/b", 4)));
    reader.update_persistent_id(None);
    assert_eq!(reader.persistent_id(), None);
}

#[test]
fn a_seek_into_a_delimited_object_defers_the_header() {
    let mut reader = S3CsvReader::new("in/".to_string(), &listing(), false, None).unwrap();
    let frontier = position(9, "in/b", 12);
    let placement = reader.seek(&frontier, &listing()).unwrap();
    assert_eq!(placement, ObjectPlacement { path: "in/b".to_string(), bytes_offset: 12 });
    assert!(!reader.is_reading());
    assert!(S3CsvReader::header_precedes(placement.bytes_offset));
    assert!(!S3CsvReader::header_precedes(0));
    reader.on_seek_header(&frontier, vec!["a".to_string(), "b".to_string()]);
    assert!(S3CsvReader::wants_rewind(4, 12));
    assert!(S3CsvReader::wants_rewind(8, 12));
    assert!(!S3CsvReader::wants_rewind(12, 12));
    reader.finish_seek(&frontier);
    assert!(reader.is_reading());
    assert!(reader.take_deferred().unwrap().same(&record(&["a", "b"], 9, "in/b", 12)));
    assert!(reader.take_deferred().is_none());
    let next = reader.on_record(vec!["5".to_string(), "6".to_string()], 16);
    assert!(next.same(&record(&["5", "6"], 10, "in/b", 16)));
    assert_eq!(reader.on_listing(&listing()).stream, Some("in/c".to_string()));
    assert!(reader.seek(&OffsetAntichain::new(), &listing()).is_none());
}
