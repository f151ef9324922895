use pathway_connectors::filesystem::{FilesystemReader, ReadMethod, ReadStep, SeekOutcome};
use pathway_connectors::offset::{OffsetAntichain, OffsetKey, OffsetValue, StorageType};
use pathway_connectors::reader::{ReadError, ReadResult, ReaderContext, SourceMetadata};
use pathway_connectors::scanner::{
    ConnectorMode, DirectorySnapshot, FileEntry, FileStatus, FileTime,
};
use pathway_connectors::string_map::StringMap;
use pathway_connectors::value::DataEventType;

fn metadata(path: &str, modified_at: u64) -> SourceMetadata {
    SourceMetadata {
        created_at: None,
        modified_at: Some(modified_at),
        owner: None,
        path: path.to_string(),
        seen_at: 0,
    }
}

fn entry(path: &str, secs: u64) -> FileEntry {
    FileEntry {
        path: path.to_string(),
        modified: Some(FileTime { secs, nanos: 0 }),
        metadata: metadata(path, secs),
    }
}

fn snapshot(
    known: Vec<(&str, FileStatus)>,
    planned: Option<SourceMetadata>,
    matching: Vec<FileEntry>,
) -> DirectorySnapshot {
    let mut statuses = StringMap::new();
    for (path, status) in known {
        statuses.insert(path.to_string(), status);
    }
    DirectorySnapshot { known: statuses, planned, matching }
}

fn present(secs: u64) -> FileStatus {
    FileStatus::Present { modified: Some(FileTime { secs, nanos: 0 }) }
}

fn reader(mode: ConnectorMode, method: ReadMethod) -> FilesystemReader {
    let cache = if mode.are_deletions_enabled() { Some("/cache".to_string()) } else { None };
    FilesystemReader::new("data/sample.txt", mode, None, method, "*", cache).unwrap()
}

fn look(reader: &mut FilesystemReader, snap: &DirectorySnapshot) -> ReadStep {
    assert!(!reader.is_reading());
    assert!(reader.scanner().can_determine_next_action(snap));
    reader.on_directory(snap, 50)
}

fn data(event: DataEventType, bytes: &[u8], total: u64, path: &str, position: u64) -> ReadResult {
    ReadResult::Data(
        ReaderContext::from_raw_bytes(event, bytes.to_vec()),
        (
            OffsetKey::Empty,
            OffsetValue::FilePosition {
                total_entries_read: total,
                path: path.to_string(),
                bytes_offset: position,
            },
        ),
    )
}

fn position(total: u64, path: &str, bytes: u64) -> OffsetAntichain {
    let mut frontier = OffsetAntichain::new();
    frontier.advance_offset(
        OffsetKey::Empty,
        OffsetValue::FilePosition {
            total_entries_read: total,
            path: path.to_string(),
            bytes_offset: bytes,
        },
    );
    frontier
}

#[test]
fn delimited_header_and_one_row_are_read_by_line() {
    // the file holds "a,b\n0,0\n"
    let path = "data/sample.txt";
    let mut reader = reader(ConnectorMode::Static, ReadMethod::ByLine);
    assert_eq!(reader.storage_type(), StorageType::FileSystem);
    assert_eq!(reader.max_allowed_consecutive_errors(), 0);
    assert!(reader.take_deferred().is_none());

    let step = look(&mut reader, &snapshot(vec![], None, vec![entry(path, 7)]));
    assert!(step.result.unwrap().same(&ReadResult::NewSource(Some(metadata(path, 7)))));
    assert_eq!(step.open, Some(path.to_string()));
    assert!(reader.is_reading());

    assert!(reader.can_take_bytes(4));
    let header = reader.on_bytes(b"a,b\n".to_vec(), 4);
    assert!(header.same(&data(DataEventType::Insert, b"a,b\n", 1, path, 4)));
    assert!(reader.take_deferred().is_none());
    let row = reader.on_bytes(b"0,0\n".to_vec(), 8);
    assert!(row.same(&data(DataEventType::Insert, b"0,0\n", 2, path, 8)));

    let end = reader.on_bytes(Vec::new(), 8);
    assert!(end.same(&ReadResult::FinishedSource { commit_allowed: true }));
    assert!(!reader.is_reading());

    let step = look(&mut reader, &snapshot(vec![], None, vec![entry(path, 7)]));
    assert!(step.result.unwrap().same(&ReadResult::Finished));
    assert_eq!(step.open, None);
}

#[test]
fn a_whole_file_is_one_entry_followed_by_its_end() {
    let path = "data/sample.txt";
    let mut reader = reader(ConnectorMode::Static, ReadMethod::Full);
    look(&mut reader, &snapshot(vec![], None, vec![entry(path, 7)]));
    let whole = reader.on_bytes(b"a,b\n0,0\n".to_vec(), 8);
    assert!(whole.same(&data(DataEventType::Insert, b"a,b\n0,0\n", 1, path, 8)));
    assert!(!reader.is_reading());
    let deferred = reader.take_deferred().unwrap();
    assert!(deferred.same(&ReadResult::FinishedSource { commit_allowed: true }));
    assert!(reader.take_deferred().is_none());
}

#[test]
fn an_empty_whole_file_is_an_entry_too() {
    let path = "data/sample.txt";
    let mut reader = reader(ConnectorMode::Static, ReadMethod::Full);
    look(&mut reader, &snapshot(vec![], None, vec![entry(path, 7)]));
    let whole = reader.on_bytes(Vec::new(), 0);
    assert!(whole.same(&data(DataEventType::Insert, b"", 1, path, 0)));
    assert!(ReadMethod::Full.yields_entry(0));
    assert!(!ReadMethod::ByLine.yields_entry(0));
    assert!(ReadMethod::ByLine.yields_entry(1));
}

#[test]
fn a_polling_reader_waits_where_nothing_is_there() {
    let mut reader = reader(ConnectorMode::Streaming, ReadMethod::ByLine);
    let step = look(&mut reader, &snapshot(vec![], None, vec![]));
    assert!(step.result.is_none());
    assert_eq!(step.open, None);
    assert!(!reader.is_reading());
}

#[test]
fn a_modification_is_a_deletion_without_commit_then_an_insertion() {
    let path = "data/sample.txt";
    let cached = format!("/cache/{:x}", xxhash_rust::xxh3::xxh3_128(path.as_bytes()));
    let mut reader = reader(ConnectorMode::Streaming, ReadMethod::ByLine);
    let step = look(&mut reader, &snapshot(vec![], None, vec![entry(path, 1)]));
    assert_eq!(step.copy_to_cache, Some((path.to_string(), cached.clone())));
    assert!(reader.on_bytes(b"x\n".to_vec(), 2).same(&data(DataEventType::Insert, b"x\n", 1, path, 2)));
    assert!(reader.on_bytes(Vec::new(), 2).same(&ReadResult::FinishedSource { commit_allowed: true }));

    // the file changes
    let step = look(&mut reader, &snapshot(vec![(path, present(2))], None, vec![entry(path, 2)]));
    assert!(step.result.unwrap().same(&ReadResult::NewSource(Some(metadata(path, 1)))));
    assert_eq!(step.open, Some(cached.clone()));
    assert!(reader.on_bytes(b"x\n".to_vec(), 2).same(&data(DataEventType::Delete, b"x\n", 2, path, 2)));
    assert!(reader
        .on_bytes(Vec::new(), 2)
        .same(&ReadResult::FinishedSource { commit_allowed: false }));

    let step = look(&mut reader, &snapshot(vec![], Some(metadata(path, 2)), vec![entry(path, 2)]));
    assert_eq!(step.remove_cached, Some(cached.clone()));
    assert!(step.result.unwrap().same(&ReadResult::NewSource(Some(metadata(path, 2)))));
    assert_eq!(step.open, Some(path.to_string()));
    assert!(reader.on_bytes(b"y\n".to_vec(), 2).same(&data(DataEventType::Insert, b"y\n", 3, path, 2)));
    assert!(reader.on_bytes(Vec::new(), 2).same(&ReadResult::FinishedSource { commit_allowed: true }));
}

#[test]
fn entry_counts_grow_across_files() {
    let mut reader = reader(ConnectorMode::Static, ReadMethod::ByLine);
    let listing = || vec![entry("data/a", 1), entry("data/b", 2)];
    look(&mut reader, &snapshot(vec![], None, listing()));
    let mut totals = Vec::new();
    for line in [b"1\n", b"2\n"] {
        if let ReadResult::Data(_, (_, OffsetValue::FilePosition { total_entries_read, .. })) =
            reader.on_bytes(line.to_vec(), 2)
        {
            totals.push(total_entries_read);
        }
    }
    reader.on_bytes(Vec::new(), 4);
    look(&mut reader, &snapshot(vec![], None, listing()));
    if let ReadResult::Data(_, (_, OffsetValue::FilePosition { total_entries_read, path, .. })) =
        reader.on_bytes(b"3\n".to_vec(), 2)
    {
        totals.push(total_entries_read);
        assert_eq!(path, "data/b");
    }
    assert_eq!(totals, vec![1, 2, 3]);
}

#[test]
fn seek_restores_the_entry_count_and_the_file() {
    let mut reader = reader(ConnectorMode::Static, ReadMethod::ByLine);
    let frontier = position(5, "data/b", 12);
    assert_eq!(FilesystemReader::seek_target(&frontier), Some("data/b".to_string()));
    let listing = vec![entry("data/a", 1), entry("data/b", 2), entry("data/c", 3)];
    let outcome = reader.seek(&frontier, Some(FileTime { secs: 2, nanos: 0 }), &listing);
    assert_eq!(outcome, SeekOutcome::Resume { path: "data/b".to_string(), bytes_offset: 12 });
    assert!(reader.is_reading());
    let next = reader.on_bytes(b"z\n".to_vec(), 14);
    assert!(next.same(&data(DataEventType::Insert, b"z\n", 6, "data/b", 14)));
    reader.on_bytes(Vec::new(), 14);
    let step = look(&mut reader, &snapshot(vec![], None, listing));
    assert!(step.result.unwrap().same(&ReadResult::NewSource(Some(metadata("data/c", 3)))));
}

#[test]
fn the_end_of_a_file_is_taken_even_when_the_count_is_full() {
    let mut reader = reader(ConnectorMode::Static, ReadMethod::ByLine);
    let frontier = position(u64::MAX, "data/b", 12);
    let listing = vec![entry("data/b", 2)];
    reader.seek(&frontier, Some(FileTime { secs: 2, nanos: 0 }), &listing);
    assert!(reader.is_reading());
    assert!(!reader.can_take_bytes(2));
    assert!(reader.can_take_bytes(0));
    let end = reader.on_bytes(Vec::new(), 12);
    assert!(end.same(&ReadResult::FinishedSource { commit_allowed: true }));
    assert!(!reader.is_reading());
    assert!(!reader.can_take_bytes(0));
}

#[test]
fn seek_without_a_file_position_changes_nothing() {
    let mut reader = reader(ConnectorMode::Static, ReadMethod::ByLine);
    let mut frontier = OffsetAntichain::new();
    assert_eq!(FilesystemReader::seek_target(&frontier), None);
    assert_eq!(reader.seek(&frontier, None, &vec![]), SeekOutcome::NoPosition);
    frontier.advance_offset(OffsetKey::Empty, OffsetValue::KafkaOffset(3));
    assert_eq!(FilesystemReader::seek_target(&frontier), None);
    assert_eq!(reader.seek(&frontier, None, &vec![]), SeekOutcome::NoPosition);
    assert!(!reader.is_reading());
}

#[test]
fn seek_to_a_file_that_is_gone_opens_nothing() {
    let mut reader = reader(ConnectorMode::Static, ReadMethod::ByLine);
    let frontier = position(5, "data/gone", 12);
    let outcome = reader.seek(&frontier, None, &vec![entry("data/a", 1)]);
    assert_eq!(outcome, SeekOutcome::FileMissing { path: "data/gone".to_string() });
    assert!(!reader.is_reading());
    // reading starts afresh: every file is taken up, and entries count from one
    let step = look(&mut reader, &snapshot(vec![], None, vec![entry("data/a", 1)]));
    assert!(step.result.unwrap().same(&ReadResult::NewSource(Some(metadata("data/a", 1)))));
    let first = reader.on_bytes(b"x\n".to_vec(), 2);
    assert!(first.same(&data(DataEventType::Insert, b"x\n", 1, "data/a", 2)));
}

#[test]
fn the_persistent_id_can_be_changed() {
    let mut reader =
        FilesystemReader::new("d/*", ConnectorMode::Static, Some(9), ReadMethod::ByLine, "*", None)
            .unwrap();
    assert_eq!(reader.persistent_id(), Some(9));
    reader.update_persistent_id(None);
    assert_eq!(reader.persistent_id(), None);
}

#[test]
fn a_reader_refuses_an_invalid_pattern() {
    let result =
        FilesystemReader::new("[", ConnectorMode::Static, None, ReadMethod::ByLine, "*", None);
    assert!(matches!(result, Err(ReadError::GlobPattern(_))));
}
