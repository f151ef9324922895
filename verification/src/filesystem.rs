//! Readers over a followed directory: one that hands on lines or whole files,
//! and one that hands on the records of delimited files.
//!
//! A reader here holds the state of reading and takes every decision; the
//! driver that owns the open file performs the reads and reports what came
//! of them.

use crate::offset::{
    advances, OffsetAntichain, OffsetKey, OffsetKeyView, OffsetValue, OffsetValueView, OffsetView,
    StorageType,
};
use crate::reader::{
    counts_entry, optional_result_view, position_handed_on, CountedStep, ReadError, ReadResult,
    ReadResultView, ReaderContext, ReaderContextView,
};
use crate::scanner::{
    after_seek, cache_path, entries_view, optional_pair_view, pump, pump_ready, state_wf,
    ActionView, ConnectorMode, DirectorySnapshot, FileEntry, FileEntryView, FileTime,
    FilesystemScanner, OutcomeView, ScanOutcome, ScannerView, SnapshotView,
};
use crate::text::optional_text_view;
use crate::value::DataEventType;
use vstd::prelude::*;

verus! {

/// How the bytes of a file are cut into entries.
#[derive(Clone, Copy, Debug, PartialEq, Eq, Structural)]
pub enum ReadMethod {
    /// One entry per line, the line feed included.
    ByLine,
    /// The whole file as one entry.
    Full,
}

impl ReadMethod {
    /// Whether a read that delivered `len` bytes is an entry: any read that
    /// delivered bytes is, and so is the read of a whole file that is empty.
    pub open spec fn spec_yields_entry(self, len: nat) -> bool {
        len > 0 || self == ReadMethod::Full
    }

    /// Whether a read that delivered `len` bytes is an entry.
    pub fn yields_entry(self, len: usize) -> (r: bool)
        ensures
            r == self.spec_yields_entry(len as nat),
    {
        len > 0 || self == ReadMethod::Full
    }
}

/// What a seek asks of the driver.
#[derive(Debug, PartialEq, Eq)]
pub enum SeekOutcome {
    /// The frontier holds no position of this reader: reading starts afresh.
    NoPosition,
    /// The file of the position is gone: the driver logs that, and reading
    /// starts afresh with a look at the whole directory.
    FileMissing { path: String },
    /// Reading goes on in `path`, `bytes_offset` bytes into it.
    Resume { path: String, bytes_offset: u64 },
}

/// The mathematical content of a [`SeekOutcome`].
pub enum SeekOutcomeView {
    NoPosition,
    FileMissing { path: Seq<char> },
    Resume { path: Seq<char>, bytes_offset: u64 },
}

impl View for SeekOutcome {
    type V = SeekOutcomeView;

    open spec fn view(&self) -> SeekOutcomeView {
        match self {
            SeekOutcome::NoPosition => SeekOutcomeView::NoPosition,
            SeekOutcome::FileMissing { path } => SeekOutcomeView::FileMissing { path: path@ },
            SeekOutcome::Resume { path, bytes_offset } => SeekOutcomeView::Resume {
                path: path@,
                bytes_offset: *bytes_offset,
            },
        }
    }
}

/// What one step of a read asks of the driver and yields.
#[derive(Debug)]
pub struct ReadStep {
    /// What the read returns. `None`: nothing is there yet; the driver waits
    /// and looks at the directory again.
    pub result: Option<ReadResult>,
    /// The file that the following reads take their bytes from.
    pub open: Option<String>,
    /// The cached copy that is to be removed.
    pub remove_cached: Option<String>,
    /// The file that is to be copied into the cache: from where, and to where.
    pub copy_to_cache: Option<(String, String)>,
}

/// The mathematical content of a [`ReadStep`].
pub struct ReadStepView {
    pub result: Option<ReadResultView>,
    pub open: Option<Seq<char>>,
    pub remove_cached: Option<Seq<char>>,
    pub copy_to_cache: Option<(Seq<char>, Seq<char>)>,
}

impl View for ReadStep {
    type V = ReadStepView;

    open spec fn view(&self) -> ReadStepView {
        ReadStepView {
            result: optional_result_view(self.result),
            open: optional_text_view(self.open),
            remove_cached: optional_text_view(self.remove_cached),
            copy_to_cache: optional_pair_view(self.copy_to_cache),
        }
    }
}

/// The path that the bytes of the file in hand are read from.
pub open spec fn current_file_of(s: ScannerView) -> Option<Seq<char>> {
    match s.current_action {
        Some(ActionView::Read(path)) => Some(path),
        Some(ActionView::Delete(path)) => cache_path(s.cache_directory, path),
        None => None,
    }
}

/// The path under which offsets name the file in hand.
pub open spec fn offset_file_of(s: ScannerView) -> Option<Seq<char>> {
    match s.current_action {
        Some(ActionView::Read(path)) => Some(path),
        Some(ActionView::Delete(path)) => Some(path),
        None => None,
    }
}

/// The kind of the events that the file in hand gives rise to.
pub open spec fn event_type_of(s: ScannerView) -> Option<DataEventType> {
    match s.current_action {
        Some(ActionView::Read(_)) => Some(DataEventType::Insert),
        Some(ActionView::Delete(_)) => Some(DataEventType::Delete),
        None => None,
    }
}

/// The position that a frontier holds for a reader of files.
pub open spec fn file_position_in(frontier: Map<OffsetKeyView, OffsetValueView>) -> Option<
    OffsetValueView,
> {
    if frontier.contains_key(OffsetKeyView::Empty) && frontier[OffsetKeyView::Empty]
        is FilePosition {
        Some(frontier[OffsetKeyView::Empty])
    } else {
        None
    }
}

/// The offset of the entry number `total` of a reader of files, read from
/// the file in hand up to the byte `position`.
pub open spec fn file_offset(s: ScannerView, total: u64, position: u64) -> OffsetView {
    (
        OffsetKeyView::Empty,
        OffsetValueView::FilePosition {
            total_entries_read: total,
            path: offset_file_of(s).unwrap(),
            bytes_offset: position,
        },
    )
}

/// The state of a reader of lines or whole files.
pub struct FileReaderView {
    pub persistent_id: Option<u128>,
    pub read_method: ReadMethod,
    /// Whether a file is open and reads take their bytes from it.
    pub reader_open: bool,
    pub scanner: ScannerView,
    /// Number of entries handed on so far.
    pub total_entries_read: u64,
    /// The result that the next read returns before anything else.
    pub deferred: Option<ReadResultView>,
}

/// What a reader of files does with the bytes of one read that ended at the
/// byte `position` of the file. Bytes that are an entry become a data event
/// with the next entry count; after a whole file the end of the source is
/// kept for the next read. A read that is no entry ends the source. The
/// commit is allowed unless an insertion is pending.
pub open spec fn bytes_step(r: FileReaderView, line: Seq<u8>, position: u64) -> (
    FileReaderView,
    ReadResultView,
) {
    let finished = ReadResultView::FinishedSource {
        commit_allowed: r.scanner.next_file_for_insertion is None,
    };
    if r.read_method.spec_yields_entry(line.len()) {
        let total = (r.total_entries_read + 1) as u64;
        (
            FileReaderView {
                total_entries_read: total,
                reader_open: r.reader_open && r.read_method != ReadMethod::Full,
                deferred: if r.read_method == ReadMethod::Full {
                    Some(finished)
                } else {
                    r.deferred
                },
                ..r
            },
            ReadResultView::Data(
                ReaderContextView::RawBytes(event_type_of(r.scanner).unwrap(), line),
                file_offset(r.scanner, total, position),
            ),
        )
    } else {
        (FileReaderView { reader_open: false, ..r }, finished)
    }
}

/// What a reader without an open file does when it has looked at the
/// directory: it lets the scanner decide. An event of the scanner is handed
/// on, and the file in hand, if there is one, is opened. Where the scanner
/// has nothing, a reader that polls waits and a reader that does not
/// declares the stream finished.
pub open spec fn directory_step(
    r: FileReaderView,
    snap: SnapshotView,
    now: u64,
    next: FileReaderView,
    step: ReadStepView,
) -> bool {
    exists|out: OutcomeView|
        {
            &&& #[trigger] pump(r.scanner, snap, now, next.scanner, out)
            &&& step.remove_cached == out.remove_cached
            &&& step.copy_to_cache == out.copy_to_cache
            &&& match out.result {
                Some(result) => {
                    &&& step.result == Some(result)
                    &&& step.open == current_file_of(next.scanner)
                    &&& next == FileReaderView {
                        scanner: next.scanner,
                        reader_open: r.reader_open || current_file_of(next.scanner) is Some,
                        ..r
                    }
                },
                None => {
                    &&& step.open is None
                    &&& next == FileReaderView { scanner: next.scanner, ..r }
                    &&& step.result == if r.scanner.streaming_mode.spec_is_polling_enabled() {
                        None
                    } else {
                        Some(ReadResultView::Finished)
                    }
                },
            }
        }
}

/// Reads the files of a followed directory line by line or whole.
#[derive(Debug)]
pub struct FilesystemReader {
    persistent_id: Option<u128>,
    read_method: ReadMethod,
    reader_open: bool,
    filesystem_scanner: FilesystemScanner,
    total_entries_read: u64,
    deferred_read_result: Option<ReadResult>,
}

impl View for FilesystemReader {
    type V = FileReaderView;

    closed spec fn view(&self) -> FileReaderView {
        FileReaderView {
            persistent_id: self.persistent_id,
            read_method: self.read_method,
            reader_open: self.reader_open,
            scanner: self.filesystem_scanner@,
            total_entries_read: self.total_entries_read,
            deferred: optional_result_view(self.deferred_read_result),
        }
    }
}

impl FilesystemReader {
    /// The reader is in a state that its own operations lead to: its scanner
    /// is, while a file is open there is a file in hand, and the only result
    /// that is ever kept for the next read is the end of a source.
    pub closed spec fn wf(&self) -> bool {
        &&& self.filesystem_scanner.wf()
        &&& self.reader_open ==> self.filesystem_scanner@.current_action is Some
        &&& match self.deferred_read_result {
            Some(result) => result is FinishedSource,
            None => true,
        }
    }

    /// What `wf` says of the state.
    pub proof fn lemma_wf(&self)
        requires
            self.wf(),
        ensures
            state_wf(self@.scanner),
            self@.reader_open ==> self@.scanner.current_action is Some,
            self@.deferred matches Some(result) ==> result is FinishedSource,
    {
    }

    /// A reader of the files that match `path`, with nothing read yet.
    pub fn new(
        path: &str,
        streaming_mode: ConnectorMode,
        persistent_id: Option<u128>,
        read_method: ReadMethod,
        object_pattern: &str,
        cache_directory_path: Option<String>,
    ) -> (r: Result<FilesystemReader, ReadError>)
        requires
            streaming_mode.spec_are_deletions_enabled() ==> cache_directory_path is Some,
        ensures
            match r {
                Ok(reader) => {
                    &&& crate::bindings::glob_pattern_fault(path@) is None
                    &&& reader.wf()
                    &&& reader@.persistent_id == persistent_id
                    &&& reader@.read_method == read_method
                    &&& !reader@.reader_open
                    &&& reader@.total_entries_read == 0
                    &&& reader@.deferred is None
                    &&& reader@.scanner == ScannerView {
                        path: path@,
                        cache_directory: optional_text_view(cache_directory_path),
                        streaming_mode,
                        object_pattern: object_pattern@,
                        known_files: Map::empty(),
                        current_action: None,
                        cached_modify_times: Map::empty(),
                        next_file_for_insertion: None,
                        cached_metadata: Map::empty(),
                    }
                },
                Err(e) => e matches ReadError::GlobPattern(fault)
                    && crate::bindings::glob_pattern_fault(path@) == Some((fault.pos, fault.msg@)),
            },
    {
        match FilesystemScanner::new(path, streaming_mode, object_pattern, cache_directory_path) {
            Ok(filesystem_scanner) => Ok(
                FilesystemReader {
                    persistent_id,
                    read_method,
                    reader_open: false,
                    filesystem_scanner,
                    total_entries_read: 0,
                    deferred_read_result: None,
                },
            ),
            Err(e) => Err(e),
        }
    }

    /// The scanner of the reader, for the driver to learn what to look at.
    pub fn scanner(&self) -> (r: &FilesystemScanner)
        ensures
            r@ == self@.scanner,
            self.wf() ==> r.wf(),
    {
        &self.filesystem_scanner
    }

    /// The path of the position that `frontier` holds for a reader of files.
    pub fn seek_target(frontier: &OffsetAntichain) -> (r: Option<String>)
        requires
            frontier.wf(),
        ensures
            optional_text_view(r) == match file_position_in(frontier@) {
                Some(position) => Some(position->FilePosition_path),
                None => None,
            },
    {
        match frontier.get_offset(&OffsetKey::Empty) {
            Some(OffsetValue::FilePosition { path, .. }) => Some(path.clone()),
            _ => None,
        }
    }

    /// Puts the reader where `frontier` says it stood. A frontier without a
    /// file position leaves the reader as it is. Otherwise the scanner seeks
    /// to the file of the position, of which the driver tells the
    /// modification time (`None` where the file is gone) and the current
    /// listing; and where the file exists the entry count is restored and
    /// reading goes on at the byte offset of the position.
    pub fn seek(
        &mut self,
        frontier: &OffsetAntichain,
        target_modify_time: Option<FileTime>,
        matching: &Vec<FileEntry>,
    ) -> (r: SeekOutcome)
        requires
            old(self).wf(),
            frontier.wf(),
        ensures
            final(self).wf(),
            match file_position_in(frontier@) {
                Some(position) => {
                    let scanner = after_seek(
                        old(self)@.scanner,
                        position->FilePosition_path,
                        target_modify_time,
                        entries_view(matching@),
                    );
                    match target_modify_time {
                        Some(_) => {
                            &&& final(self)@ == FileReaderView {
                                scanner,
                                reader_open: true,
                                total_entries_read: position->FilePosition_total_entries_read,
                                ..old(self)@
                            }
                            &&& r@ == SeekOutcomeView::Resume {
                                path: position->FilePosition_path,
                                bytes_offset: position->FilePosition_bytes_offset,
                            }
                        },
                        None => {
                            &&& final(self)@ == FileReaderView {
                                scanner,
                                reader_open: false,
                                ..old(self)@
                            }
                            &&& r@ == SeekOutcomeView::FileMissing {
                                path: position->FilePosition_path,
                            }
                        },
                    }
                },
                None => final(self)@ == old(self)@ && r@ == SeekOutcomeView::NoPosition,
            },
    {
        match frontier.get_offset(&OffsetKey::Empty) {
            Some(OffsetValue::FilePosition { total_entries_read, path, bytes_offset }) => {
                self.filesystem_scanner.seek_to_file(path.as_str(), target_modify_time, matching);
                match target_modify_time {
                    Some(_) => {
                        self.reader_open = true;
                        self.total_entries_read = *total_entries_read;
                        SeekOutcome::Resume { path: path.clone(), bytes_offset: *bytes_offset }
                    },
                    None => {
                        self.reader_open = false;
                        SeekOutcome::FileMissing { path: path.clone() }
                    },
                }
            },
            _ => SeekOutcome::NoPosition,
        }
    }

    /// The result that was kept for this read, if any. It is handed out once.
    pub fn take_deferred(&mut self) -> (r: Option<ReadResult>)
        requires
            old(self).wf(),
        ensures
            final(self).wf(),
            optional_result_view(r) == old(self)@.deferred,
            final(self)@ == (FileReaderView { deferred: None, ..old(self)@ }),
            r matches Some(result) ==> result.wf(),
    {
        self.deferred_read_result.take()
    }

    /// Whether a file is open, so that the next step of a read is to read
    /// bytes from it.
    pub fn is_reading(&self) -> (r: bool)
        ensures
            r == self@.reader_open,
    {
        self.reader_open
    }

    /// Whether a read that delivered `len` bytes can be taken: a file is
    /// open, and if the bytes are an entry the entry count can still grow.
    pub fn can_take_bytes(&self, len: usize) -> (r: bool)
        ensures
            r == (self@.reader_open && (self@.total_entries_read < u64::MAX
                || !self@.read_method.spec_yields_entry(len as nat))),
    {
        self.reader_open && (self.total_entries_read < u64::MAX || !self.read_method.yields_entry(
            len,
        ))
    }

    /// Takes the bytes of one read from the open file, which ended at the
    /// byte `position` of the file. See [`bytes_step`].
    pub fn on_bytes(&mut self, line: Vec<u8>, position: u64) -> (r: ReadResult)
        requires
            old(self).wf(),
            old(self)@.reader_open,
            old(self)@.total_entries_read < u64::MAX || !old(self)@.read_method.spec_yields_entry(
                line@.len(),
            ),
        ensures
            final(self).wf(),
            (final(self)@, r@) == bytes_step(old(self)@, line@, position),
            r.wf(),
    {
        let commit_allowed = !self.filesystem_scanner.has_planned_insertion();
        if self.read_method.yields_entry(line.len()) {
            self.total_entries_read += 1;
            let path = self.filesystem_scanner.current_offset_file().unwrap();
            let offset = (
                OffsetKey::Empty,
                OffsetValue::FilePosition {
                    total_entries_read: self.total_entries_read,
                    path,
                    bytes_offset: position,
                },
            );
            let data_event_type = self.filesystem_scanner.data_event_type().unwrap();
            if self.read_method == ReadMethod::Full {
                self.deferred_read_result = Some(ReadResult::FinishedSource { commit_allowed });
                self.reader_open = false;
            }
            ReadResult::Data(ReaderContext::from_raw_bytes(data_event_type, line), offset)
        } else {
            self.reader_open = false;
            ReadResult::FinishedSource { commit_allowed }
        }
    }

    /// Decides what a read without an open file yields, from what the driver
    /// saw of the directory. See [`directory_step`].
    pub fn on_directory(&mut self, snapshot: &DirectorySnapshot, now: u64) -> (step: ReadStep)
        requires
            old(self).wf(),
            snapshot.wf(),
            !old(self)@.reader_open,
            pump_ready(old(self)@.scanner, snapshot@),
        ensures
            final(self).wf(),
            directory_step(old(self)@, snapshot@, now, final(self)@, step@),
            step.result matches Some(result) ==> result.wf(),
    {
        let outcome = self.filesystem_scanner.next_action_determined(snapshot, now);
        let ghost out = outcome@;
        let ScanOutcome { result, remove_cached, copy_to_cache } = outcome;
        match result {
            Some(next_read_result) => {
                let open = self.filesystem_scanner.current_file();
                if open.is_some() {
                    self.reader_open = true;
                }
                proof {
                    assert(pump(old(self)@.scanner, snapshot@, now, self@.scanner, out));
                    lemma_pump_keeps_wf_results(old(self)@.scanner, snapshot@, now, self@.scanner, out);
                }
                ReadStep { result: Some(next_read_result), open, remove_cached, copy_to_cache }
            },
            None => {
                let result = if self.filesystem_scanner.is_polling_enabled() {
                    None
                } else {
                    Some(ReadResult::Finished)
                };
                proof {
                    assert(pump(old(self)@.scanner, snapshot@, now, self@.scanner, out));
                    lemma_pump_keeps_mode(old(self)@.scanner, snapshot@, now, self@.scanner, out);
                }
                ReadStep { result, open: None, remove_cached, copy_to_cache }
            },
        }
    }

    /// The id under which the state of the reader is persisted.
    pub fn persistent_id(&self) -> (r: Option<u128>)
        ensures
            r == self@.persistent_id,
    {
        self.persistent_id
    }

    /// Sets the id under which the state of the reader is persisted.
    pub fn update_persistent_id(&mut self, persistent_id: Option<u128>)
        requires
            old(self).wf(),
        ensures
            final(self).wf(),
            final(self)@ == (FileReaderView { persistent_id, ..old(self)@ }),
    {
        self.persistent_id = persistent_id;
    }

    /// The kind of source, by which frontiers of the reader are merged.
    pub fn storage_type(&self) -> (r: StorageType)
        ensures
            r == StorageType::FileSystem,
    {
        StorageType::FileSystem
    }

    /// How many reads may fail in a row before the runtime gives up.
    pub fn max_allowed_consecutive_errors(&self) -> (r: usize)
        ensures
            r == 0,
    {
        0
    }
}

/// The pump does not change how the scanner is set up.
pub proof fn lemma_pump_keeps_mode(
    s: ScannerView,
    snap: SnapshotView,
    now: u64,
    next: ScannerView,
    out: OutcomeView,
)
    requires
        pump(s, snap, now, next, out),
    ensures
        next.streaming_mode == s.streaming_mode,
        next.cache_directory == s.cache_directory,
        next.path == s.path,
        next.object_pattern == s.object_pattern,
{
}

/// When the pump answers with an event that begins a source, there is a file
/// in hand.
pub proof fn lemma_pump_keeps_wf_results(
    s: ScannerView,
    snap: SnapshotView,
    now: u64,
    next: ScannerView,
    out: OutcomeView,
)
    requires
        pump(s, snap, now, next, out),
    ensures
        out.result matches Some(ReadResultView::NewSource(_)) ==> next.current_action is Some,
        out.result matches Some(result) ==> result is NewSource || result
            == (ReadResultView::FinishedSource { commit_allowed: true }),
{
}

/// Taking the bytes of a read counts the entry that it hands on, and the
/// position of that entry is a position in a file.
pub proof fn lemma_bytes_step_counts(r: FileReaderView, line: Seq<u8>, position: u64)
    requires
        r.total_entries_read < u64::MAX,
    ensures
        counts_entry(
            CountedStep {
                before: r.total_entries_read,
                after: bytes_step(r, line, position).0.total_entries_read,
                result: Some(bytes_step(r, line, position).1),
            },
        ),
        position_handed_on(Some(bytes_step(r, line, position).1)) matches Some(handed_on)
            ==> handed_on is FilePosition,
{
}

/// Looking at the directory leaves the count of entries as it is and hands
/// on no position.
pub proof fn lemma_directory_step_counts(
    r: FileReaderView,
    snap: SnapshotView,
    now: u64,
    next: FileReaderView,
    step: ReadStepView,
)
    requires
        directory_step(r, snap, now, next, step),
    ensures
        next.total_entries_read == r.total_entries_read,
        position_handed_on(step.result) is None,
{
}

/// How a source ends. A read by line that finds no bytes is answered by the
/// end of the source; after a whole file the end of the source is kept for
/// the next read. Either way the file is closed, the scanner is left as it
/// is, and the commit is allowed exactly when no insertion is pending. So
/// between the deletion and the insertion that report a modified file no
/// commit is allowed, and after the insertion it is.
pub proof fn lemma_commit_waits_for_pending_insertion(
    r: FileReaderView,
    line: Seq<u8>,
    position: u64,
)
    ensures
        bytes_step(r, line, position).0.scanner == r.scanner,
        !r.read_method.spec_yields_entry(line.len()) ==> {
            &&& bytes_step(r, line, position).1 == (ReadResultView::FinishedSource {
                commit_allowed: r.scanner.next_file_for_insertion is None,
            })
            &&& !bytes_step(r, line, position).0.reader_open
        },
        r.read_method == ReadMethod::Full ==> {
            &&& bytes_step(r, line, position).1 is Data
            &&& bytes_step(r, line, position).0.deferred == Some(
                ReadResultView::FinishedSource {
                    commit_allowed: r.scanner.next_file_for_insertion is None,
                },
            )
            &&& !bytes_step(r, line, position).0.reader_open
        },
{
}

/// A deletion is replayed from the cached copy. While the deletion of
/// `path` is in hand, the bytes are read from the place of its copy in the
/// cache, every entry is handed on as a deletion, and its offset names the
/// file itself, not the copy.
pub proof fn lemma_deletion_is_replayed_from_the_cache(
    r: FileReaderView,
    path: Seq<char>,
    line: Seq<u8>,
    position: u64,
)
    requires
        r.scanner.current_action == Some(ActionView::Delete(path)),
        r.read_method.spec_yields_entry(line.len()),
    ensures
        current_file_of(r.scanner) == cache_path(r.scanner.cache_directory, path),
        bytes_step(r, line, position).1 matches ReadResultView::Data(context, offset) && context
            == ReaderContextView::RawBytes(DataEventType::Delete, line) && offset.0
            == OffsetKeyView::Empty && offset.1 is FilePosition && offset.1->FilePosition_path
            == path && offset.1->FilePosition_bytes_offset == position,
{
}

/// After a seek to a frontier whose file exists, the first entry that the
/// reader hands on has the entry count that follows the one of the
/// frontier, and its offset names the file of the frontier.
pub proof fn lemma_file_seek_resumes_after_frontier(
    r: FileReaderView,
    position: OffsetValueView,
    target: FileTime,
    entries: Seq<FileEntryView>,
    line: Seq<u8>,
    bytes_position: u64,
)
    requires
        position is FilePosition,
        position->FilePosition_total_entries_read < u64::MAX,
        r.read_method.spec_yields_entry(line.len()),
    ensures
        ({
            let sought = FileReaderView {
                scanner: after_seek(r.scanner, position->FilePosition_path, Some(target), entries),
                reader_open: true,
                total_entries_read: position->FilePosition_total_entries_read,
                ..r
            };
            bytes_step(sought, line, bytes_position).1->Data_1 == (
                OffsetKeyView::Empty,
                OffsetValueView::FilePosition {
                    total_entries_read: (position->FilePosition_total_entries_read + 1) as u64,
                    path: position->FilePosition_path,
                    bytes_offset: bytes_position,
                },
            ) && advances(position, bytes_step(sought, line, bytes_position).1->Data_1.1)
        }),
{
}

} // verus!
