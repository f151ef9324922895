//! Change tracking on a directory tree: which file a filesystem reader turns
//! to next, and whether it is to be read as an insertion or replayed from the
//! cache as a deletion.
//!
//! The scanner never touches the disk. Its driver looks at the disk, hands
//! over what it saw as a [`DirectorySnapshot`], and carries out the file
//! operations that the scanner asks for in return.

use crate::bindings::{check_glob_pattern, glob_pattern_fault, random_u128, xxh3_128, xxh3_128_of};
use crate::reader::{
    optional_metadata_view, ReadError, ReadResult, ReadResultView, SourceMetadata,
    SourceMetadataView,
};
use crate::string_map::StringMap;
use crate::text::{
    join_text, decimal, decimal_digits, hex_digits, hexadecimal, join_path, joined_path, text_less,
    text_lt, texts_view,
};
use crate::value::DataEventType;
use vstd::prelude::*;
use vstd::string::*;
use vstd::utf8::encode_utf8;

verus! {

/// Whether a source is read once or followed as it changes.
#[derive(Clone, Copy, Debug, PartialEq, Eq, Structural)]
pub enum ConnectorMode {
    Static,
    Streaming,
}

impl ConnectorMode {
    /// Whether the reader keeps looking for new data once it has read
    /// everything.
    pub open spec fn spec_is_polling_enabled(&self) -> bool {
        *self == ConnectorMode::Streaming
    }

    /// Whether changed and removed files are reported as deletions.
    pub open spec fn spec_are_deletions_enabled(&self) -> bool {
        *self == ConnectorMode::Streaming
    }

    /// Whether the reader keeps looking for new data once it has read
    /// everything.
    pub fn is_polling_enabled(&self) -> (r: bool)
        ensures
            r == self.spec_is_polling_enabled(),
    {
        match self {
            ConnectorMode::Static => false,
            ConnectorMode::Streaming => true,
        }
    }

    /// Whether changed and removed files are reported as deletions.
    pub fn are_deletions_enabled(&self) -> (r: bool)
        ensures
            r == self.spec_are_deletions_enabled(),
    {
        match self {
            ConnectorMode::Static => false,
            ConnectorMode::Streaming => true,
        }
    }
}

/// A modification time: seconds since the Unix epoch and the nanoseconds
/// within that second.
#[derive(Clone, Copy, Debug, PartialEq, Eq, Structural)]
pub struct FileTime {
    pub secs: u64,
    pub nanos: u32,
}

/// `a` is earlier than `b`.
pub open spec fn time_lt(a: FileTime, b: FileTime) -> bool {
    a.secs < b.secs || (a.secs == b.secs && a.nanos < b.nanos)
}

/// The order in which files are taken up: by modification time, and by path
/// among files modified at the same time.
pub open spec fn stamp_lt(ta: FileTime, pa: Seq<char>, tb: FileTime, pb: Seq<char>) -> bool {
    time_lt(ta, tb) || (ta == tb && text_lt(pa, pb))
}

/// Whether the file `pa` modified at `ta` is taken up before `pb` modified
/// at `tb`.
pub fn stamp_less(ta: &FileTime, pa: &str, tb: &FileTime, pb: &str) -> (r: bool)
    ensures
        r == stamp_lt(*ta, pa@, *tb, pb@),
{
    if ta.secs != tb.secs {
        ta.secs < tb.secs
    } else if ta.nanos != tb.nanos {
        ta.nanos < tb.nanos
    } else {
        text_less(pa, pb)
    }
}

/// The order of files is strict: no two files come before each other.
pub proof fn lemma_stamp_lt_asymmetric(ta: FileTime, pa: Seq<char>, tb: FileTime, pb: Seq<char>)
    ensures
        !(stamp_lt(ta, pa, tb, pb) && stamp_lt(tb, pb, ta, pa)),
{
    crate::text::lemma_text_lt_asymmetric(pa, pb);
}

/// Two files that differ in time or path are ordered one way or the other.
pub proof fn lemma_stamp_lt_total(ta: FileTime, pa: Seq<char>, tb: FileTime, pb: Seq<char>)
    ensures
        (ta == tb && pa == pb) || stamp_lt(ta, pa, tb, pb) || stamp_lt(tb, pb, ta, pa),
{
    crate::text::lemma_text_lt_total(pa, pb);
}

/// The order of files is transitive.
pub proof fn lemma_stamp_lt_transitive(
    ta: FileTime,
    pa: Seq<char>,
    tb: FileTime,
    pb: Seq<char>,
    tc: FileTime,
    pc: Seq<char>,
)
    requires
        stamp_lt(ta, pa, tb, pb),
        stamp_lt(tb, pb, tc, pc),
    ensures
        stamp_lt(ta, pa, tc, pc),
{
    if ta == tb && tb == tc {
        crate::text::lemma_text_lt_transitive(pa, pb, pc);
    }
}

/// What a metadata lookup reports of a path.
#[derive(Clone, Copy, Debug, PartialEq, Eq)]
pub enum FileStatus {
    /// Nothing exists at the path.
    Missing,
    /// The lookup failed for another reason.
    Unreadable,
    /// The path exists; `modified` is its modification time where the
    /// platform tells it.
    Present { modified: Option<FileTime> },
}

/// A known file is due for deletion when it has vanished or when the second
/// of its modification differs from the one it was taken up with.
pub open spec fn needs_deletion(status: FileStatus, known_modified_at: u64) -> bool {
    match status {
        FileStatus::Missing => true,
        FileStatus::Unreadable => false,
        FileStatus::Present { modified: Some(time) } => time.secs != known_modified_at,
        FileStatus::Present { modified: None } => false,
    }
}

/// Whether a known file is due for deletion.
pub fn is_due_for_deletion(status: &FileStatus, known_modified_at: u64) -> (r: bool)
    ensures
        r == needs_deletion(*status, known_modified_at),
{
    match status {
        FileStatus::Missing => true,
        FileStatus::Unreadable => false,
        FileStatus::Present { modified: Some(time) } => time.secs != known_modified_at,
        FileStatus::Present { modified: None } => false,
    }
}

/// A regular file that matches the pattern of the scanner.
#[derive(Debug)]
pub struct FileEntry {
    pub path: String,
    /// Its modification time, where a lookup told it.
    pub modified: Option<FileTime>,
    /// Its metadata as the events about it are to carry it.
    pub metadata: SourceMetadata,
}

/// The mathematical content of a [`FileEntry`].
pub struct FileEntryView {
    pub path: Seq<char>,
    pub modified: Option<FileTime>,
    pub metadata: SourceMetadataView,
}

impl View for FileEntry {
    type V = FileEntryView;

    open spec fn view(&self) -> FileEntryView {
        FileEntryView { path: self.path@, modified: self.modified, metadata: self.metadata@ }
    }
}

/// The content of each entry of a list, in order.
pub open spec fn entries_view(entries: Seq<FileEntry>) -> Seq<FileEntryView> {
    Seq::new(entries.len(), |i: int| entries[i]@)
}

/// What the driver saw on disk just before it asks the scanner for the next
/// action.
#[derive(Debug)]
pub struct DirectorySnapshot {
    /// What a lookup reported of the known files, by path.
    pub known: StringMap<FileStatus>,
    /// The metadata of the file that awaits reinsertion, if that file exists.
    pub planned: Option<SourceMetadata>,
    /// The regular files that match the pattern, in the order of the listing.
    pub matching: Vec<FileEntry>,
}

/// The mathematical content of a [`DirectorySnapshot`].
pub struct SnapshotView {
    pub known: Map<Seq<char>, FileStatus>,
    pub planned: Option<SourceMetadataView>,
    pub matching: Seq<FileEntryView>,
}

impl View for DirectorySnapshot {
    type V = SnapshotView;

    open spec fn view(&self) -> SnapshotView {
        SnapshotView {
            known: self.known@,
            planned: optional_metadata_view(self.planned),
            matching: entries_view(self.matching@),
        }
    }
}

impl DirectorySnapshot {
    /// No path is reported twice among the known files.
    pub open spec fn wf(&self) -> bool {
        self.known.wf()
    }
}

/// The file that the scanner is busy with.
#[derive(Debug)]
pub enum PosixScannerAction {
    /// The file is read from its place as an insertion.
    Read(String),
    /// The file is replayed from its cached copy as a deletion.
    Delete(String),
}

/// The mathematical content of a [`PosixScannerAction`].
pub enum ActionView {
    Read(Seq<char>),
    Delete(Seq<char>),
}

impl View for PosixScannerAction {
    type V = ActionView;

    open spec fn view(&self) -> ActionView {
        match self {
            PosixScannerAction::Read(path) => ActionView::Read(path@),
            PosixScannerAction::Delete(path) => ActionView::Delete(path@),
        }
    }
}

/// The content of an optional action.
pub open spec fn optional_action_view(action: Option<PosixScannerAction>) -> Option<ActionView> {
    match action {
        Some(a) => Some(a@),
        None => None,
    }
}

/// The content of the metadata kept for each file.
pub open spec fn metadata_map_view(metadata: Map<Seq<char>, Option<SourceMetadata>>) -> Map<
    Seq<char>,
    Option<SourceMetadataView>,
> {
    metadata.map_values(|m: Option<SourceMetadata>| optional_metadata_view(m))
}

/// The state of a scanner.
pub struct ScannerView {
    /// The glob pattern of the files to follow.
    pub path: Seq<char>,
    /// Where copies of the files are kept for their deletion.
    pub cache_directory: Option<Seq<char>>,
    pub streaming_mode: ConnectorMode,
    /// The pattern of the files to follow inside a matched directory.
    pub object_pattern: Seq<char>,
    /// Every file that was taken up and not deleted since, with the second of
    /// its modification.
    pub known_files: Map<Seq<char>, u64>,
    /// The file in hand.
    pub current_action: Option<ActionView>,
    /// The modification times that the scanner goes by where it does not
    /// report deletions.
    pub cached_modify_times: Map<Seq<char>, Option<FileTime>>,
    /// The file whose deletion was reported and whose insertion is to follow.
    pub next_file_for_insertion: Option<Seq<char>>,
    /// The metadata under which each file was taken up.
    pub cached_metadata: Map<Seq<char>, Option<SourceMetadataView>>,
}

/// What the scanner answers when asked for the next action.
#[derive(Debug)]
pub struct ScanOutcome {
    /// The event to hand on, or nothing where no file is due.
    pub result: Option<ReadResult>,
    /// The cached copy that is no longer needed and is to be removed.
    pub remove_cached: Option<String>,
    /// The file that is to be copied into the cache: from where, and to where.
    pub copy_to_cache: Option<(String, String)>,
}

/// The mathematical content of a [`ScanOutcome`].
pub struct OutcomeView {
    pub result: Option<ReadResultView>,
    pub remove_cached: Option<Seq<char>>,
    pub copy_to_cache: Option<(Seq<char>, Seq<char>)>,
}

/// The content of an optional pair of paths.
pub open spec fn optional_pair_view(pair: Option<(String, String)>) -> Option<
    (Seq<char>, Seq<char>),
> {
    match pair {
        Some((from, to)) => Some((from@, to@)),
        None => None,
    }
}

impl View for ScanOutcome {
    type V = OutcomeView;

    open spec fn view(&self) -> OutcomeView {
        OutcomeView {
            result: crate::reader::optional_result_view(self.result),
            remove_cached: crate::text::optional_text_view(self.remove_cached),
            copy_to_cache: optional_pair_view(self.copy_to_cache),
        }
    }
}

/// Where the copy of `path` lies in the cache: under the cache directory, in
/// a file named by the hexadecimal digits of the 128-bit hash of the path.
pub open spec fn cache_path(cache_directory: Option<Seq<char>>, path: Seq<char>) -> Option<
    Seq<char>,
> {
    match cache_directory {
        Some(root) => Some(joined_path(root, hex_digits(xxh3_128_of(encode_utf8(path)) as nat))),
        None => None,
    }
}

/// The order to copy `path` into the cache, where there is a cache.
pub open spec fn copy_order(cache_directory: Option<Seq<char>>, path: Seq<char>) -> Option<
    (Seq<char>, Seq<char>),
> {
    match cache_path(cache_directory, path) {
        Some(to) => Some((path, to)),
        None => None,
    }
}

/// The cached copy that the action in hand was replayed from.
pub open spec fn finished_copy(s: ScannerView) -> Option<Seq<char>> {
    match s.current_action {
        Some(ActionView::Delete(path)) => cache_path(s.cache_directory, path),
        _ => None,
    }
}

/// The state once `path` is taken up with the metadata `metadata`: the file
/// is known under the second of its modification (or `now` where that is
/// unknown), its metadata is kept, and it is the file in hand, to be read.
pub open spec fn after_initiation(
    s: ScannerView,
    path: Seq<char>,
    metadata: SourceMetadataView,
    now: u64,
) -> ScannerView {
    ScannerView {
        cached_metadata: s.cached_metadata.insert(path, Some(metadata)),
        known_files: s.known_files.insert(
            path,
            match metadata.modified_at {
                Some(t) => t,
                None => now,
            },
        ),
        current_action: Some(ActionView::Read(path)),
        ..s
    }
}

/// The status that a snapshot reports of a known file. A file that the
/// snapshot says nothing of counts as unreadable.
pub open spec fn status_of(known: Map<Seq<char>, FileStatus>, path: Seq<char>) -> FileStatus {
    if known.contains_key(path) {
        known[path]
    } else {
        FileStatus::Unreadable
    }
}

/// The known file `path` is due for deletion.
pub open spec fn is_due(s: ScannerView, known: Map<Seq<char>, FileStatus>, path: Seq<char>) -> bool {
    s.known_files.contains_key(path) && needs_deletion(status_of(known, path), s.known_files[path])
}

/// `path` is the file to delete next: of the known files that are due, the
/// one with the greatest path.
pub open spec fn deletion_choice(
    s: ScannerView,
    known: Map<Seq<char>, FileStatus>,
    path: Seq<char>,
) -> bool {
    &&& is_due(s, known, path)
    &&& forall|other: Seq<char>| #[trigger] is_due(s, known, other) ==> !text_lt(path, other)
}

/// The state once the deletion of `path` is reported: the file is no longer
/// known, its metadata is given up, it is the file in hand, to be replayed
/// from the cache; and where it still exists its insertion is to follow.
pub open spec fn after_deletion(
    s: ScannerView,
    known: Map<Seq<char>, FileStatus>,
    path: Seq<char>,
) -> ScannerView {
    ScannerView {
        known_files: s.known_files.remove(path),
        cached_metadata: s.cached_metadata.remove(path),
        current_action: Some(ActionView::Delete(path)),
        next_file_for_insertion: if status_of(known, path) is Present {
            Some(path)
        } else {
            s.next_file_for_insertion
        },
        ..s
    }
}

/// The modification times that the scanner goes by after it has looked at
/// the first `n` entries of a listing: for each path that it took no time of
/// before, and that is not in `skip`, the time of the first entry with that
/// path.
pub open spec fn memo_through(
    memo: Map<Seq<char>, Option<FileTime>>,
    skip: Set<Seq<char>>,
    entries: Seq<FileEntryView>,
    n: int,
) -> Map<Seq<char>, Option<FileTime>>
    decreases n,
{
    if n <= 0 {
        memo
    } else {
        let before = memo_through(memo, skip, entries, n - 1);
        let entry = entries[n - 1];
        if skip.contains(entry.path) || before.contains_key(entry.path) {
            before
        } else {
            before.insert(entry.path, entry.modified)
        }
    }
}

/// The modification time that the scanner goes by for the entry `i` of a
/// listing: the time in the listing where deletions are reported, and the
/// time it first saw for that path otherwise.
pub open spec fn effective_time(
    s: ScannerView,
    skip: Set<Seq<char>>,
    entries: Seq<FileEntryView>,
    i: int,
) -> Option<FileTime> {
    if s.streaming_mode.spec_are_deletions_enabled() {
        entries[i].modified
    } else {
        memo_through(s.cached_modify_times, skip, entries, i + 1)[entries[i].path]
    }
}

/// The modification times that the scanner goes by once it has looked at a
/// whole listing.
pub open spec fn memo_after(s: ScannerView, skip: Set<Seq<char>>, entries: Seq<FileEntryView>) -> Map<
    Seq<char>,
    Option<FileTime>,
> {
    if s.streaming_mode.spec_are_deletions_enabled() {
        s.cached_modify_times
    } else {
        memo_through(s.cached_modify_times, skip, entries, entries.len() as int)
    }
}

/// The entry `i` can be taken up: it is not known yet and has a
/// modification time.
pub open spec fn is_candidate(s: ScannerView, entries: Seq<FileEntryView>, i: int) -> bool {
    &&& 0 <= i < entries.len()
    &&& !s.known_files.contains_key(entries[i].path)
    &&& effective_time(s, s.known_files.dom(), entries, i) is Some
}

/// The entry `a` comes before the entry `b` in the order of files.
pub open spec fn precedes(s: ScannerView, entries: Seq<FileEntryView>, a: int, b: int) -> bool {
    stamp_lt(
        effective_time(s, s.known_files.dom(), entries, a).unwrap(),
        entries[a].path,
        effective_time(s, s.known_files.dom(), entries, b).unwrap(),
        entries[b].path,
    )
}

/// Among the first `n` entries, `c` is the one to take up next: of the
/// entries that can be taken up, the first in the order of files, and among
/// equals the first in the listing.
pub open spec fn first_minimal(s: ScannerView, entries: Seq<FileEntryView>, c: int, n: int) -> bool {
    &&& c < n
    &&& is_candidate(s, entries, c)
    &&& forall|j: int|
        j < n && #[trigger] is_candidate(s, entries, j) ==> (if j < c {
            precedes(s, entries, c, j)
        } else {
            !precedes(s, entries, j, c)
        })
}

/// The entry `c` is the one to take up next.
pub open spec fn insertion_choice(s: ScannerView, entries: Seq<FileEntryView>, c: int) -> bool {
    first_minimal(s, entries, c, entries.len() as int)
}

/// The scanner can answer: where it is to report a deletion, it still holds
/// the metadata under which the file was taken up.
pub open spec fn pump_ready(s: ScannerView, snap: SnapshotView) -> bool {
    s.next_file_for_insertion is None && s.streaming_mode.spec_are_deletions_enabled()
        ==> forall|path: Seq<char>| #[trigger]
        deletion_choice(s, snap.known, path) ==> s.cached_metadata.contains_key(path)
}

/// What holds of every state of a scanner: its pattern compiles, it has a
/// cache where it reports deletions, and it replays a file from the cache
/// only where it reports deletions.
pub open spec fn state_wf(s: ScannerView) -> bool {
    &&& glob_pattern_fault(s.path) is None
    &&& s.streaming_mode.spec_are_deletions_enabled() ==> s.cache_directory is Some
    &&& s.current_action matches Some(ActionView::Delete(_))
        ==> s.streaming_mode.spec_are_deletions_enabled()
}

/// One step of the event pump, from the state `s` and the snapshot `snap` to
/// the state `next` and the answer `out`.
///
/// The copy that a finished deletion was replayed from is given up. Then, in
/// this order: a file that awaits reinsertion is taken up if it still exists,
/// and otherwise the source is declared finished with commits allowed; where
/// deletions are reported and a known file is due, the due file with the
/// greatest path is reported deleted under the metadata it was taken up
/// with; otherwise the first unknown file in the order of files is taken up;
/// and where there is none, nothing is answered.
pub open spec fn pump(
    s: ScannerView,
    snap: SnapshotView,
    now: u64,
    next: ScannerView,
    out: OutcomeView,
) -> bool {
    let idle = ScannerView { current_action: None, next_file_for_insertion: None, ..s };
    &&& out.remove_cached == finished_copy(s)
    &&& match s.next_file_for_insertion {
        Some(path) => match snap.planned {
            Some(metadata) => {
                &&& next == after_initiation(idle, path, metadata, now)
                &&& out.result == Some(ReadResultView::NewSource(Some(metadata)))
                &&& out.copy_to_cache == copy_order(s.cache_directory, path)
            },
            None => {
                &&& next == idle
                &&& out.result == Some(ReadResultView::FinishedSource { commit_allowed: true })
                &&& out.copy_to_cache is None
            },
        },
        None => if s.streaming_mode.spec_are_deletions_enabled() && exists|path: Seq<char>|
            is_due(s, snap.known, path) {
            exists|path: Seq<char>|
                {
                    &&& #[trigger] deletion_choice(s, snap.known, path)
                    &&& next == after_deletion(idle, snap.known, path)
                    &&& out.result == Some(ReadResultView::NewSource(s.cached_metadata[path]))
                    &&& out.copy_to_cache is None
                }
        } else {
            let looked = ScannerView {
                cached_modify_times: memo_after(s, s.known_files.dom(), snap.matching),
                ..idle
            };
            if exists|i: int| is_candidate(s, snap.matching, i) {
                exists|c: int|
                    {
                        &&& #[trigger] insertion_choice(s, snap.matching, c)
                        &&& next == after_initiation(
                            looked,
                            snap.matching[c].path,
                            snap.matching[c].metadata,
                            now,
                        )
                        &&& out.result == Some(
                            ReadResultView::NewSource(Some(snap.matching[c].metadata)),
                        )
                        &&& out.copy_to_cache == copy_order(
                            s.cache_directory,
                            snap.matching[c].path,
                        )
                    }
            } else {
                &&& next == looked
                &&& out.result is None
                &&& out.copy_to_cache is None
            }
        },
    }
}

/// The files that a seek to `seek_path`, modified at `target`, marks as
/// already read after it has looked at the first `n` entries of a listing:
/// every entry that is not after the target in the order of files, under the
/// second of its modification.
pub open spec fn seek_known(
    s: ScannerView,
    entries: Seq<FileEntryView>,
    target: FileTime,
    seek_path: Seq<char>,
    n: int,
) -> Map<Seq<char>, u64>
    decreases n,
{
    if n <= 0 {
        Map::empty()
    } else {
        let before = seek_known(s, entries, target, seek_path, n - 1);
        match effective_time(s, Set::empty(), entries, n - 1) {
            Some(time) => if stamp_lt(target, seek_path, time, entries[n - 1].path) {
                before
            } else {
                before.insert(entries[n - 1].path, time.secs)
            },
            None => before,
        }
    }
}

/// The state after a seek to `seek_path`. Where the file is gone (`target`
/// is `None`) the scanner only forgets the files it knew. Otherwise the files
/// up to the target are known and the target is the file in hand.
pub open spec fn after_seek(
    s: ScannerView,
    seek_path: Seq<char>,
    target: Option<FileTime>,
    entries: Seq<FileEntryView>,
) -> ScannerView {
    match target {
        None => ScannerView { known_files: Map::empty(), ..s },
        Some(time) => ScannerView {
            known_files: seek_known(s, entries, time, seek_path, entries.len() as int),
            cached_modify_times: memo_after(s, Set::empty(), entries),
            current_action: Some(ActionView::Read(seek_path)),
            ..s
        },
    }
}

/// Where the cache of a scanner lives.
#[derive(Debug, PartialEq, Eq)]
pub enum CacheLocation {
    /// The scanner keeps no copies.
    Disabled,
    /// A directory of this path under the persistent storage, which outlives
    /// the process.
    Persistent(String),
    /// A temporary directory that goes with the process.
    Temporary,
}

/// The name of the cache directory of the connector `unique_id`.
pub open spec fn cache_directory_name(unique_id: u128) -> Seq<char> {
    "cache-"@ + decimal_digits(unique_id as nat)
}

/// Where the cache lives: nowhere unless deletions are reported; under the
/// persistent storage where one is configured; in a temporary directory
/// otherwise.
pub fn cache_location(
    streaming_mode: ConnectorMode,
    persistent_storage: Option<&str>,
    unique_id: u128,
) -> (r: CacheLocation)
    ensures
        match r {
            CacheLocation::Disabled => !streaming_mode.spec_are_deletions_enabled(),
            CacheLocation::Persistent(directory) => {
                &&& streaming_mode.spec_are_deletions_enabled()
                &&& persistent_storage matches Some(root)
                &&& directory@ == joined_path(root@, cache_directory_name(unique_id))
            },
            CacheLocation::Temporary => streaming_mode.spec_are_deletions_enabled()
                && persistent_storage is None,
        },
{
    if !streaming_mode.are_deletions_enabled() {
        return CacheLocation::Disabled;
    }
    match persistent_storage {
        Some(root) => {
            let digits = decimal(unique_id);
            let name = join_text("cache-", digits.as_str());
            CacheLocation::Persistent(join_path(root, name.as_str()))
        },
        None => CacheLocation::Temporary,
    }
}

/// Where the cache of a connector lives. A connector without a persistent
/// id gets a random one, so its directory under the persistent storage is
/// some `cache-` directory.
pub fn plan_cache_directory(
    streaming_mode: ConnectorMode,
    persistent_storage: Option<&str>,
    persistent_id: Option<u128>,
) -> (r: CacheLocation)
    ensures
        match r {
            CacheLocation::Disabled => !streaming_mode.spec_are_deletions_enabled(),
            CacheLocation::Persistent(directory) => {
                &&& streaming_mode.spec_are_deletions_enabled()
                &&& persistent_storage matches Some(root)
                &&& match persistent_id {
                    Some(id) => directory@ == joined_path(root@, cache_directory_name(id)),
                    None => exists|id: u128|
                        directory@ == joined_path(root@, #[trigger] cache_directory_name(id)),
                }
            },
            CacheLocation::Temporary => streaming_mode.spec_are_deletions_enabled()
                && persistent_storage is None,
        },
{
    let unique_id = match persistent_id {
        Some(id) => id,
        None => random_u128(),
    };
    cache_location(streaming_mode, persistent_storage, unique_id)
}

/// Follows the files that match a glob pattern and decides which of them a
/// reader turns to next.
#[derive(Debug)]
pub struct FilesystemScanner {
    path: String,
    cache_directory_path: Option<String>,
    streaming_mode: ConnectorMode,
    object_pattern: String,
    known_files: StringMap<u64>,
    current_action: Option<PosixScannerAction>,
    cached_modify_times: StringMap<Option<FileTime>>,
    next_file_for_insertion: Option<String>,
    cached_metadata: StringMap<Option<SourceMetadata>>,
}

impl View for FilesystemScanner {
    type V = ScannerView;

    closed spec fn view(&self) -> ScannerView {
        ScannerView {
            path: self.path@,
            cache_directory: crate::text::optional_text_view(self.cache_directory_path),
            streaming_mode: self.streaming_mode,
            object_pattern: self.object_pattern@,
            known_files: self.known_files@,
            current_action: optional_action_view(self.current_action),
            cached_modify_times: self.cached_modify_times@,
            next_file_for_insertion: crate::text::optional_text_view(self.next_file_for_insertion),
            cached_metadata: metadata_map_view(self.cached_metadata@),
        }
    }
}

impl FilesystemScanner {
    /// How long a reader waits before it looks for new files again, in
    /// milliseconds.
    pub fn sleep_duration() -> (millis: u64)
        ensures
            millis == 500,
    {
        500
    }

    /// The tables of the scanner hold no path twice.
    pub closed spec fn tables_wf(&self) -> bool {
        &&& self.known_files.wf()
        &&& self.cached_modify_times.wf()
        &&& self.cached_metadata.wf()
    }

    /// The scanner is in a state that its own operations lead to.
    pub open spec fn wf(&self) -> bool {
        self.tables_wf() && state_wf(self@)
    }

    /// A scanner for the files that match `path`. Inside a directory that
    /// matches, the files that match `object_pattern` are followed. Copies
    /// for deletions go to `cache_directory_path`.
    pub fn new(
        path: &str,
        streaming_mode: ConnectorMode,
        object_pattern: &str,
        cache_directory_path: Option<String>,
    ) -> (r: Result<FilesystemScanner, ReadError>)
        requires
            streaming_mode.spec_are_deletions_enabled() ==> cache_directory_path is Some,
        ensures
            match r {
                Ok(scanner) => {
                    &&& glob_pattern_fault(path@) is None
                    &&& scanner.wf()
                    &&& scanner@ == ScannerView {
                        path: path@,
                        cache_directory: crate::text::optional_text_view(cache_directory_path),
                        streaming_mode,
                        object_pattern: object_pattern@,
                        known_files: Map::empty(),
                        current_action: None,
                        cached_modify_times: Map::empty(),
                        next_file_for_insertion: None,
                        cached_metadata: Map::empty(),
                    }
                },
                Err(e) => e matches ReadError::GlobPattern(fault) && glob_pattern_fault(path@)
                    == Some((fault.pos, fault.msg@)),
            },
    {
        match check_glob_pattern(path) {
            Ok(_) => {},
            Err(fault) => {
                return Err(ReadError::GlobPattern(fault));
            },
        }
        let scanner = FilesystemScanner {
            path: path.to_owned(),
            cache_directory_path,
            streaming_mode,
            object_pattern: object_pattern.to_owned(),
            known_files: StringMap::new(),
            current_action: None,
            cached_modify_times: StringMap::new(),
            next_file_for_insertion: None,
            cached_metadata: StringMap::new(),
        };
        proof {
            assert(metadata_map_view(scanner.cached_metadata@) =~= Map::empty());
        }
        Ok(scanner)
    }

    /// Whether the deletion of a file was reported and its insertion is to
    /// follow.
    pub fn has_planned_insertion(&self) -> (r: bool)
        ensures
            r == self@.next_file_for_insertion is Some,
    {
        self.next_file_for_insertion.is_some()
    }

    /// The file whose insertion is to follow.
    pub fn planned_insertion(&self) -> (r: Option<String>)
        ensures
            crate::text::optional_text_view(r) == self@.next_file_for_insertion,
    {
        crate::text::clone_optional_text(&self.next_file_for_insertion)
    }

    /// Whether the reader keeps looking for new files.
    pub fn is_polling_enabled(&self) -> (r: bool)
        ensures
            r == self@.streaming_mode.spec_is_polling_enabled(),
    {
        self.streaming_mode.is_polling_enabled()
    }

    /// Whether changed and removed files are reported as deletions.
    pub fn are_deletions_enabled(&self) -> (r: bool)
        ensures
            r == self@.streaming_mode.spec_are_deletions_enabled(),
    {
        self.streaming_mode.are_deletions_enabled()
    }

    /// The glob pattern of the files that the scanner follows.
    pub fn pattern(&self) -> (r: &String)
        ensures
            r@ == self@.path,
    {
        &self.path
    }

    /// The pattern that lists the files to follow inside the matched
    /// directory `folder`.
    pub fn folder_scan_pattern(&self, folder: &str) -> (r: String)
        ensures
            r@ == folder@ + "/**/"@ + self@.object_pattern,
    {
        let head = join_text(folder, "/**/");
        join_text(head.as_str(), self.object_pattern.as_str())
    }

    /// The kind of the events that the file in hand gives rise to.
    pub fn data_event_type(&self) -> (r: Option<DataEventType>)
        ensures
            r == match self@.current_action {
                Some(ActionView::Read(_)) => Some(DataEventType::Insert),
                Some(ActionView::Delete(_)) => Some(DataEventType::Delete),
                None => None,
            },
    {
        match &self.current_action {
            Some(PosixScannerAction::Read(_)) => Some(DataEventType::Insert),
            Some(PosixScannerAction::Delete(_)) => Some(DataEventType::Delete),
            None => None,
        }
    }

    /// Where the copy of `path` lies in the cache.
    pub fn cached_file_path(&self, path: &str) -> (r: Option<String>)
        ensures
            crate::text::optional_text_view(r) == cache_path(self@.cache_directory, path@),
    {
        match &self.cache_directory_path {
            Some(root) => {
                let digest = xxh3_128(path.as_bytes());
                let name = hexadecimal(digest);
                Some(join_path(root.as_str(), name.as_str()))
            },
            None => None,
        }
    }

    /// The path from which the bytes of the file in hand are to be read: the
    /// file itself for an insertion, its cached copy for a deletion.
    pub fn current_file(&self) -> (r: Option<String>)
        ensures
            crate::text::optional_text_view(r) == match self@.current_action {
                Some(ActionView::Read(path)) => Some(path),
                Some(ActionView::Delete(path)) => cache_path(self@.cache_directory, path),
                None => None,
            },
    {
        match &self.current_action {
            Some(PosixScannerAction::Read(path)) => Some(path.clone()),
            Some(PosixScannerAction::Delete(path)) => self.cached_file_path(path.as_str()),
            None => None,
        }
    }

    /// The path of the file in hand as offsets name it: its place in the
    /// followed directory, for insertions and deletions alike.
    pub fn current_offset_file(&self) -> (r: Option<String>)
        ensures
            crate::text::optional_text_view(r) == match self@.current_action {
                Some(ActionView::Read(path)) => Some(path),
                Some(ActionView::Delete(path)) => Some(path),
                None => None,
            },
    {
        match &self.current_action {
            Some(PosixScannerAction::Read(path)) => Some(path.clone()),
            Some(PosixScannerAction::Delete(path)) => Some(path.clone()),
            None => None,
        }
    }

    /// The paths of the known files, each once.
    pub fn known_file_paths(&self) -> (r: Vec<String>)
        requires
            self.wf(),
        ensures
            texts_view(r@).no_duplicates(),
            forall|path: Seq<char>|
                texts_view(r@).contains(path) <==> self@.known_files.contains_key(path),
    {
        let mut paths: Vec<String> = Vec::new();
        let mut i: usize = 0;
        while i < self.known_files.len()
            invariant
                i <= self.known_files.keys().len(),
                paths.len() == i,
                forall|j: int| 0 <= j < i ==> (#[trigger] paths[j])@ == self.known_files.keys()[j],
            decreases self.known_files.keys().len() - i,
        {
            paths.push(self.known_files.key_at(i).clone());
            i += 1;
        }
        assert(texts_view(paths@) =~= self.known_files.keys());
        paths
    }

    /// The modification time that the scanner goes by for `path`, of which
    /// a lookup has just told `observed`. Where deletions are reported that
    /// is the observed time; otherwise it is the time that the scanner saw
    /// first, and the observed time is remembered if it is the first.
    fn modify_time(&mut self, path: &str, observed: Option<FileTime>) -> (r: Option<FileTime>)
        requires
            old(self).wf(),
        ensures
            final(self).wf(),
            final(self)@ == (ScannerView {
                cached_modify_times: if !old(self)@.streaming_mode.spec_are_deletions_enabled()
                    && !old(self)@.cached_modify_times.contains_key(path@) {
                    old(self)@.cached_modify_times.insert(path@, observed)
                } else {
                    old(self)@.cached_modify_times
                },
                ..old(self)@
            }),
            r == (if old(self)@.streaming_mode.spec_are_deletions_enabled() {
                observed
            } else if old(self)@.cached_modify_times.contains_key(path@) {
                old(self)@.cached_modify_times[path@]
            } else {
                observed
            }),
    {
        if self.streaming_mode.are_deletions_enabled() {
            observed
        } else {
            match self.cached_modify_times.get(path) {
                Some(remembered) => *remembered,
                None => {
                    self.cached_modify_times.insert(path.to_owned(), observed);
                    observed
                },
            }
        }
    }

    /// Takes up the file `path` with the metadata `metadata`: the file is
    /// known from now on, its metadata is kept, and it is the file in hand,
    /// to be read. The answer begins the new source and, where the scanner
    /// has a cache, orders the file to be copied to its place there.
    pub fn initiate_file_insertion(&mut self, path: String, metadata: SourceMetadata, now: u64) -> (r:
        (ReadResult, Option<(String, String)>))
        requires
            old(self).wf(),
        ensures
            final(self).wf(),
            final(self)@ == after_initiation(old(self)@, path@, metadata@, now),
            r.0@ == ReadResultView::NewSource(Some(metadata@)),
            optional_pair_view(r.1) == copy_order(old(self)@.cache_directory, path@),
    {
        let copy_to_cache = match self.cached_file_path(path.as_str()) {
            Some(to) => Some((path.clone(), to)),
            None => None,
        };
        let modified_at = match metadata.modified_at {
            Some(t) => t,
            None => now,
        };
        self.cached_metadata.insert(path.clone(), Some(metadata.clone()));
        self.known_files.insert(path.clone(), modified_at);
        self.current_action = Some(PosixScannerAction::Read(path));
        proof {
            assert(self@.cached_metadata =~= old(self)@.cached_metadata.insert(
                path@,
                Some(metadata@),
            ));
        }
        (ReadResult::NewSource(Some(metadata)), copy_to_cache)
    }

    /// The known file to delete next, if any is due.
    pub fn select_deletion(&self, known: &StringMap<FileStatus>) -> (r: Option<String>)
        requires
            self.wf(),
            known.wf(),
        ensures
            match r {
                Some(path) => deletion_choice(self@, known@, path@),
                None => forall|path: Seq<char>| !is_due(self@, known@, path),
            },
    {
        let mut chosen: Option<usize> = None;
        let mut i: usize = 0;
        while i < self.known_files.len()
            invariant
                i <= self.known_files.keys().len(),
                self.wf(),
                known.wf(),
                match chosen {
                    Some(c) => {
                        &&& c < i
                        &&& is_due(self@, known@, self.known_files.keys()[c as int])
                        &&& forall|j: int|
                            0 <= j < i && is_due(self@, known@, #[trigger] self.known_files.keys()[j])
                                ==> !text_lt(
                                self.known_files.keys()[c as int],
                                self.known_files.keys()[j],
                            )
                    },
                    None => forall|j: int|
                        0 <= j < i ==> !is_due(self@, known@, #[trigger] self.known_files.keys()[j]),
                },
            decreases self.known_files.keys().len() - i,
        {
            proof {
                self.known_files.lemma_entry(i as int);
            }
            let path = self.known_files.key_at(i);
            let modified_at = *self.known_files.value_at(i);
            let due = match known.get(path.as_str()) {
                Some(status) => is_due_for_deletion(status, modified_at),
                None => false,
            };
            if due {
                match chosen {
                    None => {
                        proof {
                            crate::text::lemma_text_lt_irreflexive(self.known_files.keys()[i as int]);
                        }
                        chosen = Some(i);
                    },
                    Some(c) => {
                        if text_less(self.known_files.key_at(c).as_str(), path.as_str()) {
                            proof {
                                let pc = self.known_files.keys()[c as int];
                                let pi = self.known_files.keys()[i as int];
                                assert forall|j: int|
                                    0 <= j < i + 1 && is_due(
                                        self@,
                                        known@,
                                        #[trigger] self.known_files.keys()[j],
                                    ) implies !text_lt(pi, self.known_files.keys()[j]) by {
                                    let pj = self.known_files.keys()[j];
                                    if text_lt(pi, pj) {
                                        crate::text::lemma_text_lt_transitive(pc, pi, pj);
                                    }
                                    crate::text::lemma_text_lt_irreflexive(pi);
                                }
                            }
                            chosen = Some(i);
                        }
                    },
                }
            }
            i += 1;
        }
        match chosen {
            Some(c) => {
                let path = self.known_files.key_at(c).clone();
                proof {
                    assert forall|other: Seq<char>| #[trigger]
                        is_due(self@, known@, other) implies !text_lt(path@, other) by {
                        let j = self.known_files.lemma_key_position(other);
                        assert(self.known_files.keys()[j] == other);
                    }
                }
                Some(path)
            },
            None => {
                proof {
                    assert forall|other: Seq<char>| !is_due(self@, known@, other) by {
                        if is_due(self@, known@, other) {
                            let j = self.known_files.lemma_key_position(other);
                            assert(self.known_files.keys()[j] == other);
                        }
                    }
                }
                None
            },
        }
    }

    /// Whether the scanner can answer on `snapshot`: where it is to report
    /// a deletion, it still holds the metadata of the file.
    pub fn can_determine_next_action(&self, snapshot: &DirectorySnapshot) -> (r: bool)
        requires
            self.wf(),
            snapshot.wf(),
        ensures
            r == pump_ready(self@, snapshot@),
    {
        if self.next_file_for_insertion.is_some() || !self.streaming_mode.are_deletions_enabled() {
            return true;
        }
        match self.select_deletion(&snapshot.known) {
            Some(path) => {
                let held = self.cached_metadata.contains_key(path.as_str());
                proof {
                    assert(self@.cached_metadata.dom() =~= self.cached_metadata@.dom());
                    assert(deletion_choice(self@, snapshot@.known, path@));
                    assert forall|other: Seq<char>| #[trigger]
                        deletion_choice(self@, snapshot@.known, other) implies other == path@ by {
                        crate::text::lemma_text_lt_total(other, path@);
                        assert(is_due(self@, snapshot@.known, other));
                        assert(is_due(self@, snapshot@.known, path@));
                    }
                }
                held
            },
            None => {
                proof {
                    assert forall|other: Seq<char>|
                        !deletion_choice(self@, snapshot@.known, other) by {
                        assert(!is_due(self@, snapshot@.known, other));
                    }
                }
                true
            },
        }
    }

    /// Reports the deletion of the known file that is due next, if any: of
    /// the known files that are due, the one with the greatest path. The
    /// answer begins a source under the metadata that the file was taken up
    /// with; the file is known no more, its cached copy is the file in hand,
    /// and where the file still exists its insertion is to follow.
    pub fn next_deletion_entry(&mut self, known: &StringMap<FileStatus>) -> (r: Option<ReadResult>)
        requires
            old(self).wf(),
            known.wf(),
            forall|path: Seq<char>| #[trigger]
                deletion_choice(old(self)@, known@, path) ==> old(self)@.cached_metadata.contains_key(
                    path,
                ),
            old(self)@.streaming_mode.spec_are_deletions_enabled(),
        ensures
            final(self).wf(),
            match r {
                Some(result) => exists|path: Seq<char>|
                    {
                        &&& #[trigger] deletion_choice(old(self)@, known@, path)
                        &&& final(self)@ == after_deletion(old(self)@, known@, path)
                        &&& result@ == ReadResultView::NewSource(old(self)@.cached_metadata[path])
                    },
                None => final(self)@ == old(self)@ && forall|path: Seq<char>|
                    !is_due(old(self)@, known@, path),
            },
    {
        match self.select_deletion(known) {
            Some(path) => {
                let still_there = match known.get(path.as_str()) {
                    Some(FileStatus::Present { .. }) => true,
                    _ => false,
                };
                let ghost before = self.cached_metadata@;
                proof {
                    assert(deletion_choice(old(self)@, known@, path@));
                    assert(old(self)@.cached_metadata.dom() =~= before.dom());
                }
                let old_metadata = self.cached_metadata.remove(path.as_str()).unwrap();
                self.known_files.remove(path.as_str());
                self.current_action = Some(PosixScannerAction::Delete(path.clone()));
                if still_there {
                    self.next_file_for_insertion = Some(path.clone());
                }
                let result = ReadResult::NewSource(old_metadata);
                proof {
                    assert(before.contains_key(path@)) by {
                        assert(old(self)@.cached_metadata.dom() =~= before.dom());
                    }
                    assert(self@.cached_metadata =~= old(self)@.cached_metadata.remove(path@));
                    assert(deletion_choice(old(self)@, known@, path@));
                    assert(self@ == after_deletion(old(self)@, known@, path@));
                }
                Some(result)
            },
            None => None,
        }
    }

    /// Looks at a listing and picks the entry to take up next. The
    /// modification times that the scanner goes by are remembered on the way.
    fn select_insertion(&mut self, matching: &Vec<FileEntry>) -> (r: Option<usize>)
        requires
            old(self).wf(),
        ensures
            final(self).wf(),
            final(self)@ == (ScannerView {
                cached_modify_times: memo_after(
                    old(self)@,
                    old(self)@.known_files.dom(),
                    entries_view(matching@),
                ),
                ..old(self)@
            }),
            match r {
                Some(c) => c < matching.len() && insertion_choice(
                    old(self)@,
                    entries_view(matching@),
                    c as int,
                ),
                None => forall|i: int| !is_candidate(old(self)@, entries_view(matching@), i),
            },
    {
        let ghost s0 = self@;
        let ghost skip = s0.known_files.dom();
        let ghost entries = entries_view(matching@);
        let mut selected: Option<(usize, FileTime)> = None;
        let mut i: usize = 0;
        while i < matching.len()
            invariant
                i <= matching.len(),
                self.wf(),
                s0 == old(self)@,
                skip == s0.known_files.dom(),
                entries == entries_view(matching@),
                self@ == (ScannerView {
                    cached_modify_times: if s0.streaming_mode.spec_are_deletions_enabled() {
                        s0.cached_modify_times
                    } else {
                        memo_through(s0.cached_modify_times, skip, entries, i as int)
                    },
                    ..s0
                }),
                match selected {
                    Some((c, time)) => {
                        &&& first_minimal(s0, entries, c as int, i as int)
                        &&& effective_time(s0, skip, entries, c as int) == Some(time)
                    },
                    None => forall|j: int| j < i ==> !is_candidate(s0, entries, j),
                },
            decreases matching.len() - i,
        {
            let entry = &matching[i];
            assert(entries[i as int] == entry@);
            if !self.known_files.contains_key(entry.path.as_str()) {
                match self.modify_time(entry.path.as_str(), entry.modified) {
                    Some(time) => {
                        assert(effective_time(s0, skip, entries, i as int) == Some(time));
                        assert(is_candidate(s0, entries, i as int));
                        match selected {
                            Some((c, chosen_time)) => {
                                if stamp_less(
                                    &time,
                                    entry.path.as_str(),
                                    &chosen_time,
                                    matching[c].path.as_str(),
                                ) {
                                    proof {
                                        assert(entries[c as int] == matching[c as int]@);
                                        lemma_new_minimum(s0, entries, c as int, i as int);
                                    }
                                    selected = Some((i, time));
                                } else {
                                    proof {
                                        assert(entries[c as int] == matching[c as int]@);
                                        assert(first_minimal(s0, entries, c as int, i + 1));
                                    }
                                }
                            },
                            None => {
                                proof {
                                    lemma_stamp_lt_asymmetric(
                                        time,
                                        entries[i as int].path,
                                        time,
                                        entries[i as int].path,
                                    );
                                    assert(first_minimal(s0, entries, i as int, i + 1));
                                }
                                selected = Some((i, time));
                            },
                        }
                    },
                    None => {
                        assert(!is_candidate(s0, entries, i as int));
                        proof {
                            if selected is Some {
                                assert(first_minimal(s0, entries, selected.unwrap().0 as int, i + 1));
                            }
                        }
                    },
                }
            } else {
                assert(!is_candidate(s0, entries, i as int));
                proof {
                    if selected is Some {
                        assert(first_minimal(s0, entries, selected.unwrap().0 as int, i + 1));
                    }
                }
            }
            i += 1;
        }
        match selected {
            Some((c, _)) => Some(c),
            None => None,
        }
    }

    /// Takes up the next file of a listing, if there is one: of the listed
    /// files that are not known and whose modification time is told, the
    /// first by time and then by path. The modification times that the
    /// scanner goes by are remembered on the way. The answer is that of
    /// [`FilesystemScanner::initiate_file_insertion`] for the chosen file.
    pub fn next_insertion_entry(&mut self, matching: &Vec<FileEntry>, now: u64) -> (r: Option<
        (ReadResult, Option<(String, String)>),
    >)
        requires
            old(self).wf(),
        ensures
            final(self).wf(),
            match r {
                Some(taken) => exists|c: int|
                    {
                        &&& #[trigger] insertion_choice(old(self)@, entries_view(matching@), c)
                        &&& final(self)@ == after_initiation(
                            ScannerView {
                                cached_modify_times: memo_after(
                                    old(self)@,
                                    old(self)@.known_files.dom(),
                                    entries_view(matching@),
                                ),
                                ..old(self)@
                            },
                            entries_view(matching@)[c].path,
                            entries_view(matching@)[c].metadata,
                            now,
                        )
                        &&& taken.0@ == ReadResultView::NewSource(
                            Some(entries_view(matching@)[c].metadata),
                        )
                        &&& optional_pair_view(taken.1) == copy_order(
                            old(self)@.cache_directory,
                            entries_view(matching@)[c].path,
                        )
                    },
                None => {
                    &&& forall|i: int| !is_candidate(old(self)@, entries_view(matching@), i)
                    &&& final(self)@ == ScannerView {
                        cached_modify_times: memo_after(
                            old(self)@,
                            old(self)@.known_files.dom(),
                            entries_view(matching@),
                        ),
                        ..old(self)@
                    }
                },
            },
    {
        match self.select_insertion(matching) {
            Some(c) => {
                let entry = &matching[c];
                assert(entries_view(matching@)[c as int] == entry@);
                let taken = self.initiate_file_insertion(
                    entry.path.clone(),
                    entry.metadata.clone(),
                    now,
                );
                assert(insertion_choice(old(self)@, entries_view(matching@), c as int));
                Some(taken)
            },
            None => None,
        }
    }

    /// Decides what the reader turns to next, from what the driver saw on
    /// disk. See [`pump`] for the rule.
    pub fn next_action_determined(&mut self, snapshot: &DirectorySnapshot, now: u64) -> (outcome:
        ScanOutcome)
        requires
            old(self).wf(),
            snapshot.wf(),
            pump_ready(old(self)@, snapshot@),
        ensures
            final(self).wf(),
            pump(old(self)@, snapshot@, now, final(self)@, outcome@),
    {
        let ghost s0 = self@;
        let remove_cached = match &self.current_action {
            Some(PosixScannerAction::Delete(path)) => self.cached_file_path(path.as_str()),
            _ => None,
        };
        self.current_action = None;
        let planned = self.next_file_for_insertion.take();
        let ghost idle = self@;
        assert(idle == ScannerView { current_action: None, next_file_for_insertion: None, ..s0 });
        match planned {
            Some(path) => {
                match &snapshot.planned {
                    Some(metadata) => {
                        let (result, copy_to_cache) = self.initiate_file_insertion(
                            path,
                            metadata.clone(),
                            now,
                        );
                        return ScanOutcome { result: Some(result), remove_cached, copy_to_cache };
                    },
                    None => {
                        return ScanOutcome {
                            result: Some(ReadResult::FinishedSource { commit_allowed: true }),
                            remove_cached,
                            copy_to_cache: None,
                        };
                    },
                }
            },
            None => {},
        }
        if self.streaming_mode.are_deletions_enabled() {
            proof {
                assert(s0.next_file_for_insertion is None);
                assert forall|path: Seq<char>| #[trigger]
                    deletion_choice(idle, snapshot@.known, path) implies idle.cached_metadata.contains_key(
                    path,
                ) by {
                    assert forall|other: Seq<char>| #[trigger]
                        is_due(s0, snapshot@.known, other) implies !text_lt(path, other) by {
                        assert(is_due(idle, snapshot@.known, other));
                    }
                    assert(is_due(idle, snapshot@.known, path));
                    assert(deletion_choice(s0, snapshot@.known, path));
                }
            }
            assert(self@ == idle);
            assert(snapshot@.known == snapshot.known@);
            assert(forall|path: Seq<char>| #[trigger]
                deletion_choice(self@, snapshot.known@, path) ==> self@.cached_metadata.contains_key(
                    path,
                ));
            match self.next_deletion_entry(&snapshot.known) {
                Some(result) => {
                    proof {
                        let path = choose|path: Seq<char>|
                            {
                                &&& #[trigger] deletion_choice(idle, snapshot.known@, path)
                                &&& self@ == after_deletion(idle, snapshot.known@, path)
                                &&& result@ == ReadResultView::NewSource(
                                    idle.cached_metadata[path],
                                )
                            };
                        assert(is_due(idle, snapshot.known@, path));
                        assert(is_due(s0, snapshot@.known, path));
                        assert forall|other: Seq<char>| #[trigger]
                            is_due(s0, snapshot@.known, other) implies !text_lt(path, other) by {
                            assert(is_due(idle, snapshot.known@, other));
                        }
                        assert(deletion_choice(s0, snapshot@.known, path));
                    }
                    return ScanOutcome { result: Some(result), remove_cached, copy_to_cache: None };
                },
                None => {
                    proof {
                        assert forall|path: Seq<char>| !is_due(s0, snapshot@.known, path) by {
                            assert(!is_due(idle, snapshot.known@, path));
                        }
                    }
                },
            }
        }
        assert(self@ == idle);
        assert(!(s0.streaming_mode.spec_are_deletions_enabled() && exists|path: Seq<char>|
            is_due(s0, snapshot@.known, path)));
        proof {
            assert forall|i: int|
                is_candidate(idle, snapshot@.matching, i) == is_candidate(
                    s0,
                    snapshot@.matching,
                    i,
                ) by {
                lemma_idle_times(s0, idle, snapshot@.matching, i);
            }
        }
        match self.next_insertion_entry(&snapshot.matching, now) {
            Some((result, copy_to_cache)) => {
                let outcome = ScanOutcome { result: Some(result), remove_cached, copy_to_cache };
                proof {
                    let c = choose|c: int|
                        {
                            &&& #[trigger] insertion_choice(idle, snapshot@.matching, c)
                            &&& self@ == after_initiation(
                                ScannerView {
                                    cached_modify_times: memo_after(
                                        idle,
                                        idle.known_files.dom(),
                                        snapshot@.matching,
                                    ),
                                    ..idle
                                },
                                snapshot@.matching[c].path,
                                snapshot@.matching[c].metadata,
                                now,
                            )
                            &&& outcome@.result == Some(
                                ReadResultView::NewSource(Some(snapshot@.matching[c].metadata)),
                            )
                            &&& outcome@.copy_to_cache == copy_order(
                                idle.cache_directory,
                                snapshot@.matching[c].path,
                            )
                        };
                    lemma_idle_choice(s0, idle, snapshot@.matching, c);
                    assert(memo_after(idle, idle.known_files.dom(), snapshot@.matching)
                        == memo_after(s0, s0.known_files.dom(), snapshot@.matching));
                    assert(is_candidate(s0, snapshot@.matching, c));
                    assert(outcome@.remove_cached == finished_copy(s0));
                }
                outcome
            },
            None => {
                proof {
                    assert(memo_after(idle, idle.known_files.dom(), snapshot@.matching)
                        == memo_after(s0, s0.known_files.dom(), snapshot@.matching));
                }
                ScanOutcome { result: None, remove_cached, copy_to_cache: None }
            },
        }
    }

    /// Puts the scanner where it stood when it had taken up `seek_file_path`.
    /// `target_modify_time` is the modification time of that file, or `None`
    /// where the file is gone; `matching` lists the files that match now.
    pub fn seek_to_file(
        &mut self,
        seek_file_path: &str,
        target_modify_time: Option<FileTime>,
        matching: &Vec<FileEntry>,
    )
        requires
            old(self).wf(),
        ensures
            final(self).wf(),
            final(self)@ == after_seek(
                old(self)@,
                seek_file_path@,
                target_modify_time,
                entries_view(matching@),
            ),
    {
        let ghost s0 = self@;
        let ghost entries = entries_view(matching@);
        self.known_files.clear();
        let target = match target_modify_time {
            Some(time) => time,
            None => {
                return ;
            },
        };
        let mut i: usize = 0;
        while i < matching.len()
            invariant
                i <= matching.len(),
                self.wf(),
                s0 == old(self)@,
                entries == entries_view(matching@),
                self@ == (ScannerView {
                    known_files: seek_known(s0, entries, target, seek_file_path@, i as int),
                    cached_modify_times: if s0.streaming_mode.spec_are_deletions_enabled() {
                        s0.cached_modify_times
                    } else {
                        memo_through(s0.cached_modify_times, Set::empty(), entries, i as int)
                    },
                    ..s0
                }),
            decreases matching.len() - i,
        {
            let entry = &matching[i];
            assert(entries[i as int] == entry@);
            match self.modify_time(entry.path.as_str(), entry.modified) {
                Some(time) => {
                    assert(effective_time(s0, Set::empty(), entries, i as int) == Some(time));
                    if !stamp_less(&target, seek_file_path, &time, entry.path.as_str()) {
                        self.known_files.insert(entry.path.clone(), time.secs);
                    }
                },
                None => {
                    assert(effective_time(s0, Set::empty(), entries, i as int) is None);
                },
            }
            i += 1;
        }
        self.current_action = Some(PosixScannerAction::Read(seek_file_path.to_owned()));
    }
}

/// The times that the scanner goes by do not depend on the file in hand.
proof fn lemma_idle_times(s: ScannerView, idle: ScannerView, entries: Seq<FileEntryView>, i: int)
    requires
        idle == (ScannerView { current_action: None, next_file_for_insertion: None, ..s }),
    ensures
        effective_time(idle, idle.known_files.dom(), entries, i) == effective_time(
            s,
            s.known_files.dom(),
            entries,
            i,
        ),
        is_candidate(idle, entries, i) == is_candidate(s, entries, i),
{
}

/// The entry to take up next does not depend on the file in hand.
proof fn lemma_idle_choice(s: ScannerView, idle: ScannerView, entries: Seq<FileEntryView>, c: int)
    requires
        idle == (ScannerView { current_action: None, next_file_for_insertion: None, ..s }),
        insertion_choice(idle, entries, c),
    ensures
        insertion_choice(s, entries, c),
{
    assert forall|j: int|
        j < entries.len() && #[trigger] is_candidate(s, entries, j) implies (if j < c {
            precedes(s, entries, c, j)
        } else {
            !precedes(s, entries, j, c)
        }) by {
        lemma_idle_times(s, idle, entries, j);
        lemma_idle_times(s, idle, entries, c);
        assert(is_candidate(idle, entries, j));
    }
    lemma_idle_times(s, idle, entries, c);
}

/// An entry that comes before the one chosen so far becomes the choice.
proof fn lemma_new_minimum(s: ScannerView, entries: Seq<FileEntryView>, c: int, i: int)
    requires
        first_minimal(s, entries, c, i),
        is_candidate(s, entries, i),
        precedes(s, entries, i, c),
    ensures
        first_minimal(s, entries, i, i + 1),
{
    let skip = s.known_files.dom();
    let ti = effective_time(s, skip, entries, i).unwrap();
    let tc = effective_time(s, skip, entries, c).unwrap();
    assert forall|j: int|
        j < i + 1 && #[trigger] is_candidate(s, entries, j) implies (if j < i {
            precedes(s, entries, i, j)
        } else {
            !precedes(s, entries, j, i)
        }) by {
        let tj = effective_time(s, skip, entries, j).unwrap();
        if j == i {
            lemma_stamp_lt_asymmetric(ti, entries[i].path, ti, entries[i].path);
        } else if j < c {
            lemma_stamp_lt_transitive(ti, entries[i].path, tc, entries[c].path, tj, entries[j].path);
        } else if j > c {
            lemma_stamp_lt_total(tc, entries[c].path, tj, entries[j].path);
            if stamp_lt(tc, entries[c].path, tj, entries[j].path) {
                lemma_stamp_lt_transitive(
                    ti,
                    entries[i].path,
                    tc,
                    entries[c].path,
                    tj,
                    entries[j].path,
                );
            }
        }
    }
}

/// Of the known files that are due, only one is the one to delete next.
pub proof fn lemma_deletion_choice_unique(
    s: ScannerView,
    known: Map<Seq<char>, FileStatus>,
    a: Seq<char>,
    b: Seq<char>,
)
    requires
        deletion_choice(s, known, a),
        deletion_choice(s, known, b),
    ensures
        a == b,
{
    assert(is_due(s, known, a));
    assert(is_due(s, known, b));
    crate::text::lemma_text_lt_total(a, b);
}

/// Of the entries of a listing, only one is the one to take up next.
pub proof fn lemma_insertion_choice_unique(
    s: ScannerView,
    entries: Seq<FileEntryView>,
    a: int,
    b: int,
)
    requires
        insertion_choice(s, entries, a),
        insertion_choice(s, entries, b),
    ensures
        a == b,
{
    assert(is_candidate(s, entries, a));
    assert(is_candidate(s, entries, b));
}

/// The event pump is deterministic: from one state and one snapshot it leads
/// to one state and one answer. Two scanners that start alike and see the
/// same directory therefore emit the same events.
pub proof fn lemma_pump_deterministic(
    s: ScannerView,
    snap: SnapshotView,
    now: u64,
    next1: ScannerView,
    out1: OutcomeView,
    next2: ScannerView,
    out2: OutcomeView,
)
    requires
        pump(s, snap, now, next1, out1),
        pump(s, snap, now, next2, out2),
    ensures
        next1 == next2,
        out1 == out2,
{
    let idle = ScannerView { current_action: None, next_file_for_insertion: None, ..s };
    if s.next_file_for_insertion is None {
        if s.streaming_mode.spec_are_deletions_enabled() && exists|path: Seq<char>|
            is_due(s, snap.known, path) {
            let left_path = choose|path: Seq<char>|
                {
                    &&& #[trigger] deletion_choice(s, snap.known, path)
                    &&& next1 == after_deletion(idle, snap.known, path)
                    &&& out1.result == Some(ReadResultView::NewSource(s.cached_metadata[path]))
                    &&& out1.copy_to_cache is None
                };
            let right_path = choose|path: Seq<char>|
                {
                    &&& #[trigger] deletion_choice(s, snap.known, path)
                    &&& next2 == after_deletion(idle, snap.known, path)
                    &&& out2.result == Some(ReadResultView::NewSource(s.cached_metadata[path]))
                    &&& out2.copy_to_cache is None
                };
            lemma_deletion_choice_unique(s, snap.known, left_path, right_path);
        } else if exists|i: int| is_candidate(s, snap.matching, i) {
            let looked = ScannerView {
                cached_modify_times: memo_after(s, s.known_files.dom(), snap.matching),
                ..idle
            };
            let c1 = choose|c: int|
                {
                    &&& #[trigger] insertion_choice(s, snap.matching, c)
                    &&& next1 == after_initiation(
                        looked,
                        snap.matching[c].path,
                        snap.matching[c].metadata,
                        now,
                    )
                    &&& out1.result == Some(
                        ReadResultView::NewSource(Some(snap.matching[c].metadata)),
                    )
                    &&& out1.copy_to_cache == copy_order(s.cache_directory, snap.matching[c].path)
                };
            let c2 = choose|c: int|
                {
                    &&& #[trigger] insertion_choice(s, snap.matching, c)
                    &&& next2 == after_initiation(
                        looked,
                        snap.matching[c].path,
                        snap.matching[c].metadata,
                        now,
                    )
                    &&& out2.result == Some(
                        ReadResultView::NewSource(Some(snap.matching[c].metadata)),
                    )
                    &&& out2.copy_to_cache == copy_order(s.cache_directory, snap.matching[c].path)
                };
            lemma_insertion_choice_unique(s, snap.matching, c1, c2);
        }
    }
}

/// The snapshot tells the second of the modification of every file that
/// could be taken up.
pub open spec fn times_known(snap: SnapshotView) -> bool {
    &&& snap.planned matches Some(metadata) ==> metadata.modified_at is Some
    &&& forall|i: int|
        0 <= i < snap.matching.len() ==> (#[trigger] snap.matching[i]).metadata.modified_at is Some
}

/// Where the modification times are known the clock plays no part: what the
/// pump does at one time it does at any other.
pub proof fn lemma_pump_ignores_clock(
    s: ScannerView,
    snap: SnapshotView,
    now: u64,
    other_now: u64,
    next: ScannerView,
    out: OutcomeView,
)
    requires
        times_known(snap),
        pump(s, snap, now, next, out),
    ensures
        pump(s, snap, other_now, next, out),
{
    let idle = ScannerView { current_action: None, next_file_for_insertion: None, ..s };
    if s.next_file_for_insertion is None {
        if s.streaming_mode.spec_are_deletions_enabled() && exists|path: Seq<char>|
            is_due(s, snap.known, path) {
            let path = choose|path: Seq<char>|
                {
                    &&& #[trigger] deletion_choice(s, snap.known, path)
                    &&& next == after_deletion(idle, snap.known, path)
                    &&& out.result == Some(ReadResultView::NewSource(s.cached_metadata[path]))
                    &&& out.copy_to_cache is None
                };
            assert(deletion_choice(s, snap.known, path));
        } else if exists|i: int| is_candidate(s, snap.matching, i) {
            let looked = ScannerView {
                cached_modify_times: memo_after(s, s.known_files.dom(), snap.matching),
                ..idle
            };
            let c = choose|c: int|
                {
                    &&& #[trigger] insertion_choice(s, snap.matching, c)
                    &&& next == after_initiation(
                        looked,
                        snap.matching[c].path,
                        snap.matching[c].metadata,
                        now,
                    )
                    &&& out.result == Some(
                        ReadResultView::NewSource(Some(snap.matching[c].metadata)),
                    )
                    &&& out.copy_to_cache == copy_order(s.cache_directory, snap.matching[c].path)
                };
            assert(is_candidate(s, snap.matching, c));
            assert(snap.matching[c].metadata.modified_at is Some);
            assert(insertion_choice(s, snap.matching, c));
        }
    }
}

/// A run of the pump: from each state, on the snapshot and at the time of
/// that step, to the next state with the answer of that step.
pub open spec fn is_pump_run(
    states: Seq<ScannerView>,
    snaps: Seq<SnapshotView>,
    times: Seq<u64>,
    answers: Seq<OutcomeView>,
) -> bool {
    &&& states.len() == answers.len() + 1
    &&& snaps.len() == answers.len()
    &&& times.len() == answers.len()
    &&& forall|i: int|
        0 <= i < answers.len() ==> pump(
            states[i],
            snaps[i],
            times[i],
            states[i + 1],
            #[trigger] answers[i],
        )
}

/// Two runs that start alike and see the same come to the same states.
proof fn lemma_runs_agree_up_to(
    states: Seq<ScannerView>,
    times: Seq<u64>,
    answers: Seq<OutcomeView>,
    other_states: Seq<ScannerView>,
    other_times: Seq<u64>,
    other_answers: Seq<OutcomeView>,
    snaps: Seq<SnapshotView>,
    k: int,
)
    requires
        is_pump_run(states, snaps, times, answers),
        is_pump_run(other_states, snaps, other_times, other_answers),
        states[0] == other_states[0],
        forall|i: int| 0 <= i < snaps.len() ==> times_known(#[trigger] snaps[i]),
        0 <= k <= snaps.len(),
    ensures
        forall|i: int| 0 <= i <= k ==> states[i] == other_states[i],
        forall|i: int| 0 <= i < k ==> answers[i] == other_answers[i],
    decreases k,
{
    if k > 0 {
        lemma_runs_agree_up_to(
            states,
            times,
            answers,
            other_states,
            other_times,
            other_answers,
            snaps,
            k - 1,
        );
        let i = k - 1;
        assert(times_known(snaps[i]));
        assert(pump(states[i], snaps[i], times[i], states[i + 1], answers[i]));
        assert(pump(
            other_states[i],
            snaps[i],
            other_times[i],
            other_states[i + 1],
            other_answers[i],
        ));
        lemma_pump_ignores_clock(
            states[i],
            snaps[i],
            times[i],
            other_times[i],
            states[i + 1],
            answers[i],
        );
        lemma_pump_deterministic(
            states[i],
            snaps[i],
            other_times[i],
            states[i + 1],
            answers[i],
            other_states[i + 1],
            other_answers[i],
        );
    }
}

/// Two independent runs emit the same events. Two scanners that start
/// alike and see the same directory at every step, in which the
/// modification times are known, go through the same states and give the
/// same answers, whatever the times at which they run.
pub proof fn lemma_runs_are_deterministic(
    states: Seq<ScannerView>,
    times: Seq<u64>,
    answers: Seq<OutcomeView>,
    other_states: Seq<ScannerView>,
    other_times: Seq<u64>,
    other_answers: Seq<OutcomeView>,
    snaps: Seq<SnapshotView>,
)
    requires
        is_pump_run(states, snaps, times, answers),
        is_pump_run(other_states, snaps, other_times, other_answers),
        states[0] == other_states[0],
        forall|i: int| 0 <= i < snaps.len() ==> times_known(#[trigger] snaps[i]),
    ensures
        states == other_states,
        answers == other_answers,
{
    lemma_runs_agree_up_to(
        states,
        times,
        answers,
        other_states,
        other_times,
        other_answers,
        snaps,
        snaps.len() as int,
    );
    assert(states =~= other_states);
    assert(answers =~= other_answers);
}

/// How a modified file is reported. Let `path` be a known file that still
/// exists, that is due, and that is the one to delete next. The pump first
/// reports its deletion under the metadata it was taken up with and makes
/// its cached copy the file in hand; the insertion of the file is then
/// pending, so that no commit is allowed when the deletion ends. At the next
/// step, if the file still exists, the pump gives up the cached copy and
/// takes the file up again under its new metadata, after which nothing is
/// pending.
pub proof fn lemma_modification_is_delete_then_insert(
    s: ScannerView,
    snap: SnapshotView,
    now: u64,
    path: Seq<char>,
    deleted: ScannerView,
    first: OutcomeView,
    later: SnapshotView,
    later_now: u64,
    new_metadata: SourceMetadataView,
    inserted: ScannerView,
    second: OutcomeView,
)
    requires
        s.streaming_mode.spec_are_deletions_enabled(),
        s.next_file_for_insertion is None,
        deletion_choice(s, snap.known, path),
        status_of(snap.known, path) is Present,
        pump(s, snap, now, deleted, first),
        later.planned == Some(new_metadata),
        pump(deleted, later, later_now, inserted, second),
    ensures
        first.result == Some(ReadResultView::NewSource(s.cached_metadata[path])),
        deleted.current_action == Some(ActionView::Delete(path)),
        deleted.next_file_for_insertion == Some(path),
        !deleted.known_files.contains_key(path),
        second.remove_cached == cache_path(s.cache_directory, path),
        second.result == Some(ReadResultView::NewSource(Some(new_metadata))),
        inserted.current_action == Some(ActionView::Read(path)),
        inserted.next_file_for_insertion is None,
        inserted.known_files.contains_key(path),
        inserted.cached_metadata[path] == Some(new_metadata),
{
    let idle = ScannerView { current_action: None, next_file_for_insertion: None, ..s };
    assert(is_due(s, snap.known, path));
    let chosen = choose|chosen: Seq<char>|
        {
            &&& #[trigger] deletion_choice(s, snap.known, chosen)
            &&& deleted == after_deletion(idle, snap.known, chosen)
            &&& first.result == Some(ReadResultView::NewSource(s.cached_metadata[chosen]))
            &&& first.copy_to_cache is None
        };
    lemma_deletion_choice_unique(s, snap.known, path, chosen);
}

/// A file that was modified and then removed before its reinsertion is not
/// taken up again: the step after its deletion declares the source finished
/// and allows the commit.
pub proof fn lemma_vanished_file_is_not_reinserted(
    s: ScannerView,
    later: SnapshotView,
    now: u64,
    next: ScannerView,
    out: OutcomeView,
)
    requires
        s.next_file_for_insertion is Some,
        later.planned is None,
        pump(s, later, now, next, out),
    ensures
        out.result == Some(ReadResultView::FinishedSource { commit_allowed: true }),
        next.current_action is None,
        next.next_file_for_insertion is None,
        next.known_files == s.known_files,
{
}

/// What taking up a file leaves. When the pump answers with the beginning
/// of a source that is to be read from the file `path`, the file is known
/// under the second of its modification (or under the current time where
/// the metadata tells none), its metadata is kept as the answer carries it,
/// it is the file in hand, no insertion is pending any more, and where the
/// scanner has a cache the file is ordered to be copied to its place there.
pub proof fn lemma_taken_up_file_is_known_and_cached(
    s: ScannerView,
    snap: SnapshotView,
    now: u64,
    next: ScannerView,
    out: OutcomeView,
    path: Seq<char>,
    metadata: SourceMetadataView,
)
    requires
        pump(s, snap, now, next, out),
        next.current_action == Some(ActionView::Read(path)),
        out.result == Some(ReadResultView::NewSource(Some(metadata))),
    ensures
        next.known_files.contains_key(path),
        next.known_files[path] == (match metadata.modified_at {
            Some(second) => second,
            None => now,
        }),
        next.cached_metadata.contains_key(path),
        next.cached_metadata[path] == Some(metadata),
        next.next_file_for_insertion is None,
        out.copy_to_cache == copy_order(s.cache_directory, path),
        s.cache_directory is Some ==> out.copy_to_cache == Some(
            (path, cache_path(s.cache_directory, path).unwrap()),
        ),
{
}

/// Where deletions are reported, a deletion that is due comes before any
/// insertion: with no insertion pending and a known file due, the pump
/// answers with the deletion of the due file with the greatest path, under
/// the metadata it was taken up with, whatever files could be taken up.
pub proof fn lemma_deletion_comes_before_insertion(
    s: ScannerView,
    snap: SnapshotView,
    now: u64,
    next: ScannerView,
    out: OutcomeView,
    path: Seq<char>,
)
    requires
        pump(s, snap, now, next, out),
        s.streaming_mode.spec_are_deletions_enabled(),
        s.next_file_for_insertion is None,
        deletion_choice(s, snap.known, path),
    ensures
        next.current_action == Some(ActionView::Delete(path)),
        out.result == Some(ReadResultView::NewSource(s.cached_metadata[path])),
        !next.known_files.contains_key(path),
        out.copy_to_cache is None,
{
    let idle = ScannerView { current_action: None, next_file_for_insertion: None, ..s };
    assert(is_due(s, snap.known, path));
    let chosen = choose|chosen: Seq<char>|
        {
            &&& #[trigger] deletion_choice(s, snap.known, chosen)
            &&& next == after_deletion(idle, snap.known, chosen)
            &&& out.result == Some(ReadResultView::NewSource(s.cached_metadata[chosen]))
            &&& out.copy_to_cache is None
        };
    lemma_deletion_choice_unique(s, snap.known, path, chosen);
}

/// The only cached copy that a step orders to be removed is the one from
/// which the deletion that was in hand before the step has been replayed.
pub proof fn lemma_cached_copy_is_removed_after_replay(
    s: ScannerView,
    snap: SnapshotView,
    now: u64,
    next: ScannerView,
    out: OutcomeView,
)
    requires
        pump(s, snap, now, next, out),
        out.remove_cached is Some,
    ensures
        s.current_action matches Some(ActionView::Delete(path)) && out.remove_cached == cache_path(
            s.cache_directory,
            path,
        ),
{
}

/// The scanner holds the metadata of every file it knows, as it does as
/// long as it has taken up every known file itself and has not sought.
pub open spec fn metadata_kept(s: ScannerView) -> bool {
    forall|path: Seq<char>| #[trigger]
        s.known_files.contains_key(path) ==> s.cached_metadata.contains_key(path)
}

/// A scanner that holds the metadata of every file it knows can answer on
/// every snapshot.
pub proof fn lemma_kept_metadata_lets_the_pump_answer(s: ScannerView, snap: SnapshotView)
    requires
        metadata_kept(s),
    ensures
        pump_ready(s, snap),
{
    assert forall|path: Seq<char>| #[trigger]
        deletion_choice(s, snap.known, path) implies s.cached_metadata.contains_key(path) by {
        assert(is_due(s, snap.known, path));
    }
}

/// The pump keeps the metadata of every known file: a scanner that holds
/// it before a step holds it after the step. A new scanner knows no file,
/// so a scanner that only ever took steps of the pump can always answer.
pub proof fn lemma_pump_keeps_metadata(
    s: ScannerView,
    snap: SnapshotView,
    now: u64,
    next: ScannerView,
    out: OutcomeView,
)
    requires
        pump(s, snap, now, next, out),
        metadata_kept(s),
    ensures
        metadata_kept(next),
{
    let idle = ScannerView { current_action: None, next_file_for_insertion: None, ..s };
    if s.next_file_for_insertion is None {
        if s.streaming_mode.spec_are_deletions_enabled() && exists|path: Seq<char>|
            is_due(s, snap.known, path) {
            let path = choose|path: Seq<char>|
                {
                    &&& #[trigger] deletion_choice(s, snap.known, path)
                    &&& next == after_deletion(idle, snap.known, path)
                    &&& out.result == Some(ReadResultView::NewSource(s.cached_metadata[path]))
                    &&& out.copy_to_cache is None
                };
            assert forall|other: Seq<char>| #[trigger]
                next.known_files.contains_key(other) implies next.cached_metadata.contains_key(
                other,
            ) by {
                assert(s.known_files.contains_key(other));
            }
        } else if exists|i: int| is_candidate(s, snap.matching, i) {
            let looked = ScannerView {
                cached_modify_times: memo_after(s, s.known_files.dom(), snap.matching),
                ..idle
            };
            let c = choose|c: int|
                {
                    &&& #[trigger] insertion_choice(s, snap.matching, c)
                    &&& next == after_initiation(
                        looked,
                        snap.matching[c].path,
                        snap.matching[c].metadata,
                        now,
                    )
                    &&& out.result == Some(
                        ReadResultView::NewSource(Some(snap.matching[c].metadata)),
                    )
                    &&& out.copy_to_cache == copy_order(s.cache_directory, snap.matching[c].path)
                };
            assert forall|other: Seq<char>| #[trigger]
                next.known_files.contains_key(other) implies next.cached_metadata.contains_key(
                other,
            ) by {
                if other != snap.matching[c].path {
                    assert(s.known_files.contains_key(other));
                }
            }
        }
    } else if snap.planned is Some {
        let path = s.next_file_for_insertion.unwrap();
        assert forall|other: Seq<char>| #[trigger]
            next.known_files.contains_key(other) implies next.cached_metadata.contains_key(
            other,
        ) by {
            if other != path {
                assert(s.known_files.contains_key(other));
            }
        }
    }
}

/// The files of the cache once the driver has carried out an answer of the
/// pump: the copy that was to be removed is gone, and then the copy that
/// was to be made is there.
pub open spec fn cache_after(cache: Set<Seq<char>>, out: OutcomeView) -> Set<Seq<char>> {
    let kept = match out.remove_cached {
        Some(copy) => cache.remove(copy),
        None => cache,
    };
    match out.copy_to_cache {
        Some((_, to)) => kept.insert(to),
        None => kept,
    }
}

/// Every file that the scanner may have to replay has its copy among the
/// files of the cache: every known file, and the file whose deletion is in
/// hand, which is known no more.
pub open spec fn cache_complete(s: ScannerView, cache: Set<Seq<char>>) -> bool {
    &&& s.cache_directory is Some
    &&& forall|path: Seq<char>| #[trigger]
        s.known_files.contains_key(path) ==> cache.contains(
            cache_path(s.cache_directory, path).unwrap(),
        )
    &&& s.current_action matches Some(ActionView::Delete(path)) ==> {
        &&& !s.known_files.contains_key(path)
        &&& cache.contains(cache_path(s.cache_directory, path).unwrap())
    }
}

/// No known file shares its place in the cache with the file whose deletion
/// is in hand: their paths have different hashes.
pub open spec fn copies_apart(s: ScannerView) -> bool {
    s.current_action matches Some(ActionView::Delete(deleted)) ==> forall|path: Seq<char>| #[trigger]
        s.known_files.contains_key(path) ==> cache_path(s.cache_directory, path) != cache_path(
            s.cache_directory,
            deleted,
        )
}

/// The cache stays complete. Where every file that the scanner may have to
/// replay has its copy in the cache, and the driver carries out what the
/// pump answers, the same holds after the step. So the copy from which a
/// deletion is replayed exists when the deletion is reported, whatever has
/// become of the file itself.
pub proof fn lemma_cache_stays_complete(
    s: ScannerView,
    snap: SnapshotView,
    now: u64,
    next: ScannerView,
    out: OutcomeView,
    cache: Set<Seq<char>>,
)
    requires
        pump(s, snap, now, next, out),
        cache_complete(s, cache),
        copies_apart(s),
    ensures
        cache_complete(next, cache_after(cache, out)),
{
    let idle = ScannerView { current_action: None, next_file_for_insertion: None, ..s };
    let after = cache_after(cache, out);
    let kept = match out.remove_cached {
        Some(copy) => cache.remove(copy),
        None => cache,
    };
    assert forall|path: Seq<char>| #[trigger] s.known_files.contains_key(path) implies kept.contains(
        cache_path(s.cache_directory, path).unwrap(),
    ) by {}
    if s.next_file_for_insertion is None {
        if s.streaming_mode.spec_are_deletions_enabled() && exists|path: Seq<char>|
            is_due(s, snap.known, path) {
            let path = choose|path: Seq<char>|
                {
                    &&& #[trigger] deletion_choice(s, snap.known, path)
                    &&& next == after_deletion(idle, snap.known, path)
                    &&& out.result == Some(ReadResultView::NewSource(s.cached_metadata[path]))
                    &&& out.copy_to_cache is None
                };
            assert(is_due(s, snap.known, path));
            assert(s.known_files.contains_key(path));
        } else if exists|i: int| is_candidate(s, snap.matching, i) {
            let looked = ScannerView {
                cached_modify_times: memo_after(s, s.known_files.dom(), snap.matching),
                ..idle
            };
            let c = choose|c: int|
                {
                    &&& #[trigger] insertion_choice(s, snap.matching, c)
                    &&& next == after_initiation(
                        looked,
                        snap.matching[c].path,
                        snap.matching[c].metadata,
                        now,
                    )
                    &&& out.result == Some(
                        ReadResultView::NewSource(Some(snap.matching[c].metadata)),
                    )
                    &&& out.copy_to_cache == copy_order(s.cache_directory, snap.matching[c].path)
                };
            assert forall|path: Seq<char>| #[trigger]
                next.known_files.contains_key(path) implies after.contains(
                cache_path(next.cache_directory, path).unwrap(),
            ) by {
                if path != snap.matching[c].path {
                    assert(s.known_files.contains_key(path));
                }
            }
        }
    } else {
        let path = s.next_file_for_insertion.unwrap();
        if snap.planned is Some {
            assert forall|other: Seq<char>| #[trigger]
                next.known_files.contains_key(other) implies after.contains(
                cache_path(next.cache_directory, other).unwrap(),
            ) by {
                if other != path {
                    assert(s.known_files.contains_key(other));
                }
            }
        }
    }
}

} // verus!
