//! The reader of delimited files in a followed directory. The driver owns the
//! parser; the reader decides what each record, each end of file and each
//! look at the directory leads to.

use crate::filesystem::{
    current_file_of, event_type_of, file_offset, file_position_in, lemma_pump_keeps_mode,
    lemma_pump_keeps_wf_results, ReadStep, ReadStepView, SeekOutcome, SeekOutcomeView,
};
use crate::offset::{OffsetAntichain, OffsetKey, OffsetKeyView, OffsetValue, StorageType};
use crate::reader::{
    counts_entry, optional_result_view, position_handed_on, CountedStep, ReadError, ReadResult,
    ReadResultView, ReaderContext, ReaderContextView,
};
use crate::scanner::{
    after_seek, entries_view, pump, pump_ready, state_wf, ConnectorMode, DirectorySnapshot,
    FileEntry, FileTime, FilesystemScanner, OutcomeView, ScanOutcome, ScannerView, SnapshotView,
};
use crate::text::{optional_text_view, texts_view};

use vstd::prelude::*;

verus! {

/// The state of a reader of delimited files.
pub struct CsvReaderView {
    pub persistent_id: Option<u128>,
    /// Whether a parser is open on a file.
    pub reader_open: bool,
    /// Whether the parsers opened from now on take records of any length.
    pub flexible: bool,
    pub scanner: ScannerView,
    /// Number of records handed on so far.
    pub total_entries_read: u64,
    /// The result that the next read returns before anything else.
    pub deferred: Option<ReadResultView>,
}

/// What the reader does with a record that the parser delivered, the parser
/// standing at the byte `position` after it: the record becomes a data event
/// with the next entry count.
pub open spec fn record_step(r: CsvReaderView, tokens: Seq<Seq<char>>, position: u64) -> (
    CsvReaderView,
    ReadResultView,
) {
    let total = (r.total_entries_read + 1) as u64;
    (
        CsvReaderView { total_entries_read: total, ..r },
        ReadResultView::Data(
            ReaderContextView::TokenizedEntries(event_type_of(r.scanner).unwrap(), tokens),
            file_offset(r.scanner, total, position),
        ),
    )
}

/// What the reader does at the end of a file: it closes the source. The
/// parser is given up and the source is declared finished; the commit is
/// allowed unless an insertion is pending, as it is between the deletion and
/// the insertion that report a modified file. The scanner is asked for the
/// next file only by the read that follows.
pub open spec fn end_of_file_step(r: CsvReaderView) -> (CsvReaderView, ReadResultView) {
    (
        CsvReaderView { reader_open: false, ..r },
        ReadResultView::FinishedSource {
            commit_allowed: r.scanner.next_file_for_insertion is None,
        },
    )
}

/// What the reader does without a parser when it has looked at the
/// directory: it lets the scanner decide. An event of the scanner is handed
/// on, and the file in hand, if there is one, is opened with a parser that
/// takes records of any length, as every parser after it. Where the scanner
/// has nothing, a reader that polls waits and a reader that does not declares
/// the stream finished.
pub open spec fn idle_step(
    r: CsvReaderView,
    snap: SnapshotView,
    now: u64,
    next: CsvReaderView,
    step: ReadStepView,
) -> bool {
    exists|out: OutcomeView|
        {
            &&& #[trigger] pump(r.scanner, snap, now, next.scanner, out)
            &&& step.remove_cached == out.remove_cached
            &&& step.copy_to_cache == out.copy_to_cache
            &&& match out.result {
                Some(result) => {
                    &&& step.result == Some(result)
                    &&& step.open == current_file_of(next.scanner)
                    &&& next == CsvReaderView {
                        scanner: next.scanner,
                        reader_open: r.reader_open || current_file_of(next.scanner) is Some,
                        flexible: r.flexible || current_file_of(next.scanner) is Some,
                        ..r
                    }
                },
                None => {
                    &&& step.open is None
                    &&& next == CsvReaderView { scanner: next.scanner, ..r }
                    &&& step.result == if r.scanner.streaming_mode.spec_is_polling_enabled() {
                        None
                    } else {
                        Some(ReadResultView::Finished)
                    }
                },
            }
        }
}

/// Reads the records of the delimited files of a followed directory.
#[derive(Debug)]
pub struct CsvFilesystemReader {
    persistent_id: Option<u128>,
    reader_open: bool,
    flexible: bool,
    filesystem_scanner: FilesystemScanner,
    total_entries_read: u64,
    deferred_read_result: Option<ReadResult>,
}

impl View for CsvFilesystemReader {
    type V = CsvReaderView;

    closed spec fn view(&self) -> CsvReaderView {
        CsvReaderView {
            persistent_id: self.persistent_id,
            reader_open: self.reader_open,
            flexible: self.flexible,
            scanner: self.filesystem_scanner@,
            total_entries_read: self.total_entries_read,
            deferred: optional_result_view(self.deferred_read_result),
        }
    }
}

impl CsvFilesystemReader {
    /// The reader is in a state that its own operations lead to.
    pub closed spec fn wf(&self) -> bool {
        &&& self.filesystem_scanner.wf()
        &&& match self.deferred_read_result {
            Some(result) => result.wf(),
            None => true,
        }
    }

    /// What `wf` says of the state.
    pub proof fn lemma_wf(&self)
        requires
            self.wf(),
        ensures
            state_wf(self@.scanner),
    {
    }

    /// A reader of the files that match `path`, with nothing read yet.
    pub fn new(
        path: &str,
        streaming_mode: ConnectorMode,
        persistent_id: Option<u128>,
        object_pattern: &str,
        cache_directory_path: Option<String>,
    ) -> (r: Result<CsvFilesystemReader, ReadError>)
        requires
            streaming_mode.spec_are_deletions_enabled() ==> cache_directory_path is Some,
        ensures
            match r {
                Ok(reader) => {
                    &&& crate::bindings::glob_pattern_fault(path@) is None
                    &&& reader.wf()
                    &&& reader@.persistent_id == persistent_id
                    &&& !reader@.reader_open
                    &&& !reader@.flexible
                    &&& reader@.total_entries_read == 0
                    &&& reader@.deferred is None
                    &&& reader@.scanner == ScannerView {
                        path: path@,
                        cache_directory: optional_text_view(cache_directory_path),
                        streaming_mode,
                        object_pattern: object_pattern@,
                        known_files: Map::empty(),
                        current_action: None,
                        cached_modify_times: Map::empty(),
                        next_file_for_insertion: None,
                        cached_metadata: Map::empty(),
                    }
                },
                Err(e) => e matches ReadError::GlobPattern(fault)
                    && crate::bindings::glob_pattern_fault(path@) == Some((fault.pos, fault.msg@)),
            },
    {
        match FilesystemScanner::new(path, streaming_mode, object_pattern, cache_directory_path) {
            Ok(filesystem_scanner) => Ok(
                CsvFilesystemReader {
                    persistent_id,
                    reader_open: false,
                    flexible: false,
                    filesystem_scanner,
                    total_entries_read: 0,
                    deferred_read_result: None,
                },
            ),
            Err(e) => Err(e),
        }
    }

    /// The scanner of the reader, for the driver to learn what to look at.
    pub fn scanner(&self) -> (r: &FilesystemScanner)
        ensures
            r@ == self@.scanner,
            self.wf() ==> r.wf(),
    {
        &self.filesystem_scanner
    }

    /// Puts the reader where `frontier` says it stood. A frontier without a
    /// file position leaves the reader as it is. Otherwise the scanner seeks
    /// to the file of the position. Where the file exists the entry count is
    /// restored, and a parser is to be opened on the file and moved to the
    /// byte offset of the position. Where the file is gone the reader has no
    /// parser and keeps its count: reading starts afresh.
    pub fn seek(
        &mut self,
        frontier: &OffsetAntichain,
        target_modify_time: Option<FileTime>,
        matching: &Vec<FileEntry>,
    ) -> (r: SeekOutcome)
        requires
            old(self).wf(),
            frontier.wf(),
        ensures
            final(self).wf(),
            match file_position_in(frontier@) {
                Some(position) => {
                    let scanner = after_seek(
                        old(self)@.scanner,
                        position->FilePosition_path,
                        target_modify_time,
                        entries_view(matching@),
                    );
                    &&& final(self)@ == CsvReaderView {
                        scanner,
                        reader_open: target_modify_time is Some,
                        total_entries_read: if target_modify_time is Some {
                            position->FilePosition_total_entries_read
                        } else {
                            old(self)@.total_entries_read
                        },
                        ..old(self)@
                    }
                    &&& r@ == match target_modify_time {
                        Some(_) => SeekOutcomeView::Resume {
                            path: position->FilePosition_path,
                            bytes_offset: position->FilePosition_bytes_offset,
                        },
                        None => SeekOutcomeView::FileMissing { path: position->FilePosition_path },
                    }
                },
                None => final(self)@ == old(self)@ && r@ == SeekOutcomeView::NoPosition,
            },
    {
        match frontier.get_offset(&OffsetKey::Empty) {
            Some(OffsetValue::FilePosition { total_entries_read, path, bytes_offset }) => {
                self.filesystem_scanner.seek_to_file(path.as_str(), target_modify_time, matching);
                match target_modify_time {
                    Some(_) => {
                        self.total_entries_read = *total_entries_read;
                        self.reader_open = true;
                        SeekOutcome::Resume { path: path.clone(), bytes_offset: *bytes_offset }
                    },
                    None => {
                        self.reader_open = false;
                        SeekOutcome::FileMissing { path: path.clone() }
                    },
                }
            },
            _ => SeekOutcome::NoPosition,
        }
    }

    /// Whether the parser of a file that is resumed at `bytes_offset` reads
    /// the header of the file first.
    pub fn header_precedes(bytes_offset: u64) -> (r: bool)
        ensures
            r == (bytes_offset > 0),
    {
        bytes_offset > 0
    }

    /// Takes the header that the parser read from the file to which the
    /// reader has just sought. The header is kept for the next read, as a
    /// data event under the very offset of the frontier.
    pub fn on_seek_header(&mut self, frontier: &OffsetAntichain, header: Vec<String>)
        requires
            old(self).wf(),
            frontier.wf(),
            file_position_in(frontier@) is Some,
            old(self)@.scanner.current_action is Some,
        ensures
            final(self).wf(),
            final(self)@ == (CsvReaderView {
                deferred: Some(
                    ReadResultView::Data(
                        ReaderContextView::TokenizedEntries(
                            event_type_of(old(self)@.scanner).unwrap(),
                            texts_view(header@),
                        ),
                        (OffsetKeyView::Empty, file_position_in(frontier@).unwrap()),
                    ),
                ),
                ..old(self)@
            }),
    {
        let data_event_type = self.filesystem_scanner.data_event_type().unwrap();
        match frontier.get_offset(&OffsetKey::Empty) {
            Some(offset_value) => {
                let offset = (OffsetKey::Empty, offset_value.clone());
                self.deferred_read_result = Some(
                    ReadResult::Data(
                        ReaderContext::from_tokenized_entries(data_event_type, header),
                        offset,
                    ),
                );
            },
            None => {},
        }
    }

    /// The result that was kept for this read, if any. It is handed out once.
    pub fn take_deferred(&mut self) -> (r: Option<ReadResult>)
        requires
            old(self).wf(),
        ensures
            final(self).wf(),
            optional_result_view(r) == old(self)@.deferred,
            final(self)@ == (CsvReaderView { deferred: None, ..old(self)@ }),
            r matches Some(result) ==> result.wf(),
    {
        self.deferred_read_result.take()
    }

    /// Whether a parser is open, so that the next step of a read is to ask
    /// it for a record.
    pub fn is_reading(&self) -> (r: bool)
        ensures
            r == self@.reader_open,
    {
        self.reader_open
    }

    /// Whether the parsers that are opened now take records of any length.
    pub fn is_flexible(&self) -> (r: bool)
        ensures
            r == self@.flexible,
    {
        self.flexible
    }

    /// Whether a record can be taken: there is a file in hand that the
    /// record belongs to, and the entry count can still grow.
    pub fn can_take_record(&self) -> (r: bool)
        ensures
            r == (self@.scanner.current_action is Some && self@.total_entries_read < u64::MAX),
    {
        self.filesystem_scanner.data_event_type().is_some() && self.total_entries_read < u64::MAX
    }

    /// Takes a record from the parser, which stands at the byte `position`
    /// after it. See [`record_step`].
    pub fn on_record(&mut self, tokens: Vec<String>, position: u64) -> (r: ReadResult)
        requires
            old(self).wf(),
            old(self)@.scanner.current_action is Some,
            old(self)@.total_entries_read < u64::MAX,
        ensures
            final(self).wf(),
            (final(self)@, r@) == record_step(old(self)@, texts_view(tokens@), position),
            r.wf(),
    {
        self.total_entries_read += 1;
        let path = self.filesystem_scanner.current_offset_file().unwrap();
        let offset = (
            OffsetKey::Empty,
            OffsetValue::FilePosition {
                total_entries_read: self.total_entries_read,
                path,
                bytes_offset: position,
            },
        );
        let data_event_type = self.filesystem_scanner.data_event_type().unwrap();
        ReadResult::Data(ReaderContext::from_tokenized_entries(data_event_type, tokens), offset)
    }

    /// Closes the source at the end of the open file. See
    /// [`end_of_file_step`].
    pub fn on_end_of_file(&mut self) -> (r: ReadResult)
        requires
            old(self).wf(),
        ensures
            final(self).wf(),
            (final(self)@, r@) == end_of_file_step(old(self)@),
            r.wf(),
    {
        self.reader_open = false;
        ReadResult::FinishedSource {
            commit_allowed: !self.filesystem_scanner.has_planned_insertion(),
        }
    }

    /// Decides what a read without a parser yields, from what the driver saw
    /// of the directory. See [`idle_step`].
    pub fn on_directory(&mut self, snapshot: &DirectorySnapshot, now: u64) -> (step: ReadStep)
        requires
            old(self).wf(),
            snapshot.wf(),
            pump_ready(old(self)@.scanner, snapshot@),
        ensures
            final(self).wf(),
            idle_step(old(self)@, snapshot@, now, final(self)@, step@),
            step.result matches Some(result) ==> result.wf(),
    {
        let outcome = self.filesystem_scanner.next_action_determined(snapshot, now);
        let ghost out = outcome@;
        let ScanOutcome { result, remove_cached, copy_to_cache } = outcome;
        match result {
            Some(next_read_result) => {
                let open = self.filesystem_scanner.current_file();
                if open.is_some() {
                    self.reader_open = true;
                    self.flexible = true;
                }
                proof {
                    assert(pump(old(self)@.scanner, snapshot@, now, self@.scanner, out));
                    lemma_pump_keeps_wf_results(
                        old(self)@.scanner,
                        snapshot@,
                        now,
                        self@.scanner,
                        out,
                    );
                }
                ReadStep { result: Some(next_read_result), open, remove_cached, copy_to_cache }
            },
            None => {
                let result = if self.filesystem_scanner.is_polling_enabled() {
                    None
                } else {
                    Some(ReadResult::Finished)
                };
                proof {
                    assert(pump(old(self)@.scanner, snapshot@, now, self@.scanner, out));
                    lemma_pump_keeps_mode(old(self)@.scanner, snapshot@, now, self@.scanner, out);
                }
                ReadStep { result, open: None, remove_cached, copy_to_cache }
            },
        }
    }

    /// The id under which the state of the reader is persisted.
    pub fn persistent_id(&self) -> (r: Option<u128>)
        ensures
            r == self@.persistent_id,
    {
        self.persistent_id
    }

    /// Sets the id under which the state of the reader is persisted.
    pub fn update_persistent_id(&mut self, persistent_id: Option<u128>)
        requires
            old(self).wf(),
        ensures
            final(self).wf(),
            final(self)@ == (CsvReaderView { persistent_id, ..old(self)@ }),
    {
        self.persistent_id = persistent_id;
    }

    /// The kind of source, by which frontiers of the reader are merged.
    pub fn storage_type(&self) -> (r: StorageType)
        ensures
            r == StorageType::CsvFilesystem,
    {
        StorageType::CsvFilesystem
    }

    /// How many reads may fail in a row before the runtime gives up.
    pub fn max_allowed_consecutive_errors(&self) -> (r: usize)
        ensures
            r == 0,
    {
        0
    }
}

/// Taking a record counts it, and the position of the record is a position
/// in a file.
pub proof fn lemma_record_step_counts(r: CsvReaderView, tokens: Seq<Seq<char>>, position: u64)
    requires
        r.total_entries_read < u64::MAX,
    ensures
        counts_entry(
            CountedStep {
                before: r.total_entries_read,
                after: record_step(r, tokens, position).0.total_entries_read,
                result: Some(record_step(r, tokens, position).1),
            },
        ),
        position_handed_on(Some(record_step(r, tokens, position).1)) matches Some(handed_on)
            && handed_on is FilePosition,
{
}

/// The end of a file and a look at the directory leave the count of records
/// as it is and hand on no position.
pub proof fn lemma_scanner_steps_count(
    r: CsvReaderView,
    snap: SnapshotView,
    now: u64,
    next: CsvReaderView,
    step: ReadStepView,
)
    requires
        idle_step(r, snap, now, next, step),
    ensures
        next.total_entries_read == r.total_entries_read,
        position_handed_on(step.result) is None,
        end_of_file_step(r).0.total_entries_read == r.total_entries_read,
        position_handed_on(Some(end_of_file_step(r).1)) is None,
{
}

/// Every source is closed before the next one begins: the end of a file is
/// answered by the end of the source, with the parser given up and the
/// scanner left as it is, and never by the beginning of another source. The
/// commit is allowed exactly when no insertion is pending, so none is
/// allowed between the deletion and the insertion that report a modified
/// file.
pub proof fn lemma_end_of_file_closes_the_source(r: CsvReaderView)
    ensures
        end_of_file_step(r).1 == (ReadResultView::FinishedSource {
            commit_allowed: r.scanner.next_file_for_insertion is None,
        }),
        !end_of_file_step(r).0.reader_open,
        end_of_file_step(r).0.scanner == r.scanner,
        r.scanner.next_file_for_insertion is Some ==> end_of_file_step(r).1 == (
            ReadResultView::FinishedSource { commit_allowed: false }
        ),
{
}

} // verus!
