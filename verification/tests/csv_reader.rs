use pathway_connectors::csv_filesystem::CsvFilesystemReader;
use pathway_connectors::filesystem::{FilesystemReader, SeekOutcome};
use pathway_connectors::offset::{OffsetAntichain, OffsetKey, OffsetValue, StorageType};
use pathway_connectors::reader::{ReadResult, ReaderContext, SourceMetadata};
use pathway_connectors::scanner::{
    ConnectorMode, DirectorySnapshot, FileEntry, FileStatus, FileTime,
};
use pathway_connectors::string_map::StringMap;
use pathway_connectors::value::DataEventType;

fn metadata(path: &str, modified_at: u64) -> SourceMetadata {
    SourceMetadata {
        created_at: None,
        modified_at: Some(modified_at),
        owner: None,
        path: path.to_string(),
        seen_at: 0,
    }
}

fn entry(path: &str, secs: u64) -> FileEntry {
    FileEntry {
        path: path.to_string(),
        modified: Some(FileTime { secs, nanos: 0 }),
        metadata: metadata(path, secs),
    }
}

fn snapshot(known: Vec<(&str, FileStatus)>, matching: Vec<FileEntry>) -> DirectorySnapshot {
    let mut statuses = StringMap::new();
    for (path, status) in known {
        statuses.insert(path.to_string(), status);
    }
    DirectorySnapshot { known: statuses, planned: None, matching }
}

fn tokens(fields: &[&str]) -> Vec<String> {
    fields.iter().map(|f| f.to_string()).collect()
}

fn record(fields: &[&str], total: u64, path: &str, position: u64) -> ReadResult {
    ReadResult::Data(
        ReaderContext::from_tokenized_entries(DataEventType::Insert, tokens(fields)),
        (
            OffsetKey::Empty,
            OffsetValue::FilePosition {
                total_entries_read: total,
                path: path.to_string(),
                bytes_offset: position,
            },
        ),
    )
}

fn position(total: u64, path: &str, bytes: u64) -> OffsetAntichain {
    let mut frontier = OffsetAntichain::new();
    frontier.advance_offset(
        OffsetKey::Empty,
        OffsetValue::FilePosition {
            total_entries_read: total,
            path: path.to_string(),
            bytes_offset: bytes,
        },
    );
    frontier
}

fn reader() -> CsvFilesystemReader {
    CsvFilesystemReader::new("data/*.csv", ConnectorMode::Static, Some(3), "*", None).unwrap()
}

#[test]
fn records_of_delimited_files_are_handed_on_with_their_position() {
    let mut reader = reader();
    assert_eq!(reader.storage_type(), StorageType::CsvFilesystem);
    assert_eq!(reader.persistent_id(), Some(3));
    assert_eq!(reader.max_allowed_consecutive_errors(), 0);
    assert!(!reader.is_reading());
    assert!(!reader.is_flexible());
    let listing = || vec![entry("data/a.csv", 1), entry("data/b.csv", 2)];

    let step = reader.on_directory(&snapshot(vec![], listing()), 9);
    assert!(step.result.unwrap().same(&ReadResult::NewSource(Some(metadata("data/a.csv", 1)))));
    assert_eq!(step.open, Some("data/a.csv".to_string()));
    assert!(reader.is_reading());
    assert!(reader.is_flexible());

    assert!(reader.can_take_record());
    assert!(reader.on_record(tokens(&["a", "b"]), 4).same(&record(&["a", "b"], 1, "data/a.csv", 4)));
    assert!(reader.on_record(tokens(&["0", "0"]), 8).same(&record(&["0", "0"], 2, "data/a.csv", 8)));

    // the end of the first file closes the source; only then the next file begins
    assert!(reader.on_end_of_file().same(&ReadResult::FinishedSource { commit_allowed: true }));
    assert!(!reader.is_reading());
    let step = reader.on_directory(&snapshot(vec![], listing()), 9);
    assert!(step.result.unwrap().same(&ReadResult::NewSource(Some(metadata("data/b.csv", 2)))));
    assert_eq!(step.open, Some("data/b.csv".to_string()));
    assert!(reader.is_reading());
    assert!(reader.on_record(tokens(&["x"]), 2).same(&record(&["x"], 3, "data/b.csv", 2)));

    // the end of the last file closes the source too
    assert!(reader.on_end_of_file().same(&ReadResult::FinishedSource { commit_allowed: true }));
    assert!(!reader.is_reading());

    let step = reader.on_directory(&snapshot(vec![], listing()), 9);
    assert!(step.result.unwrap().same(&ReadResult::Finished));
}

#[test]
fn a_seek_into_a_file_defers_the_header_under_the_offset_of_the_frontier() {
    let mut reader = reader();
    let frontier = position(7, "data/a.csv", 20);
    let listing = vec![entry("data/a.csv", 1), entry("data/b.csv", 2)];
    assert_eq!(FilesystemReader::seek_target(&frontier), Some("data/a.csv".to_string()));
    let outcome = reader.seek(&frontier, Some(FileTime { secs: 1, nanos: 0 }), &listing);
    assert_eq!(outcome, SeekOutcome::Resume { path: "data/a.csv".to_string(), bytes_offset: 20 });
    assert!(CsvFilesystemReader::header_precedes(20));
    assert!(!CsvFilesystemReader::header_precedes(0));
    reader.on_seek_header(&frontier, tokens(&["a", "b"]));

    let deferred = reader.take_deferred().unwrap();
    assert!(deferred.same(&record(&["a", "b"], 7, "data/a.csv", 20)));
    assert!(reader.take_deferred().is_none());
    assert!(reader.on_record(tokens(&["5", "6"]), 24).same(&record(&["5", "6"], 8, "data/a.csv", 24)));
}

#[test]
fn a_seek_to_a_missing_file_starts_afresh() {
    let mut reader = reader();
    let frontier = position(7, "data/gone.csv", 20);
    let outcome = reader.seek(&frontier, None, &vec![entry("data/a.csv", 1)]);
    assert_eq!(outcome, SeekOutcome::FileMissing { path: "data/gone.csv".to_string() });
    assert!(!reader.is_reading());
    assert!(!reader.can_take_record());
    let step = reader.on_directory(&snapshot(vec![], vec![entry("data/a.csv", 1)]), 9);
    assert!(step.result.unwrap().same(&ReadResult::NewSource(Some(metadata("data/a.csv", 1)))));
    assert!(reader.on_record(tokens(&["h"]), 2).same(&record(&["h"], 1, "data/a.csv", 2)));
}

#[test]
fn a_modified_delimited_file_is_closed_without_commit_before_it_is_read_again() {
    let mut reader = CsvFilesystemReader::new(
        "data/*.csv",
        ConnectorMode::Streaming,
        None,
        "*",
        Some("/cache".to_string()),
    )
    .unwrap();
    let deleted = |fields: &[&str], total: u64, position: u64| {
        ReadResult::Data(
            ReaderContext::from_tokenized_entries(DataEventType::Delete, tokens(fields)),
            (
                OffsetKey::Empty,
                OffsetValue::FilePosition {
                    total_entries_read: total,
                    path: "data/a.csv".to_string(),
                    bytes_offset: position,
                },
            ),
        )
    };
    let present = |secs: u64| FileStatus::Present { modified: Some(FileTime { secs, nanos: 0 }) };

    let step = reader.on_directory(&snapshot(vec![], vec![entry("data/a.csv", 1)]), 9);
    assert!(step.result.unwrap().same(&ReadResult::NewSource(Some(metadata("data/a.csv", 1)))));
    assert!(reader.on_record(tokens(&["h"]), 2).same(&record(&["h"], 1, "data/a.csv", 2)));
    assert!(reader.on_end_of_file().same(&ReadResult::FinishedSource { commit_allowed: true }));

    // the file is overwritten: its deletion is replayed from the cached copy
    let changed = snapshot(vec![("data/a.csv", present(5))], vec![entry("data/a.csv", 5)]);
    let step = reader.on_directory(&changed, 9);
    assert!(step.result.unwrap().same(&ReadResult::NewSource(Some(metadata("data/a.csv", 1)))));
    let copy = format!("/cache/{:x}", xxhash_rust::xxh3::xxh3_128(b"data/a.csv"));
    assert_eq!(step.open, Some(copy));
    assert!(reader.on_record(tokens(&["h"]), 2).same(&deleted(&["h"], 2, 2)));

    // the deletion ends without commit, and only the next read begins the insertion
    assert!(reader.on_end_of_file().same(&ReadResult::FinishedSource { commit_allowed: false }));
    assert!(!reader.is_reading());
    let mut again = snapshot(vec![], vec![entry("data/a.csv", 5)]);
    again.planned = Some(metadata("data/a.csv", 5));
    let step = reader.on_directory(&again, 9);
    assert!(step.result.unwrap().same(&ReadResult::NewSource(Some(metadata("data/a.csv", 5)))));
    assert_eq!(step.open, Some("data/a.csv".to_string()));
    assert!(reader.on_record(tokens(&["n"]), 2).same(&record(&["n"], 3, "data/a.csv", 2)));
    assert!(reader.on_end_of_file().same(&ReadResult::FinishedSource { commit_allowed: true }));
}

#[test]
fn a_polling_reader_of_delimited_files_waits() {
    let mut reader = CsvFilesystemReader::new(
        "data/*.csv",
        ConnectorMode::Streaming,
        None,
        "*",
        Some("/cache".to_string()),
    )
    .unwrap();
    let step = reader.on_directory(&snapshot(vec![], vec![]), 9);
    assert!(step.result.is_none());
    reader.update_persistent_id(Some(1));
    assert_eq!(reader.persistent_id(), Some(1));
}
