//! Seeking and running agree. In a directory that stays as it is, a scanner
//! that seeks to a file stands where a run stood when it had taken up that
//! file: it knows the same files, has the same file in hand, and goes on to
//! the same file. The same holds of the objects of a bucket.

use crate::reader::ReadResultView;
use crate::s3::{
    instant_of, is_before, is_object_candidate, lemma_object_lt_irreflexive,
    lemma_object_lt_total, lemma_object_lt_transitive, object_choice, object_lt, object_precedes,
    processed_after_seek, threshold_of, S3ScannerView, TimedObjectView,
};
use crate::scanner::{
    after_initiation, after_seek, effective_time, insertion_choice, is_candidate, memo_after,
    memo_through, precedes, pump, seek_known, stamp_lt, ActionView, FileEntryView, FileTime,
    OutcomeView, ScannerView, SnapshotView,
};
use vstd::prelude::*;

verus! {

/// The entry `i` of the listing is the file `path`.
pub open spec fn names(entries: Seq<FileEntryView>, i: int, path: Seq<char>) -> bool {
    0 <= i < entries.len() && entries[i].path == path
}

/// The listing names no file twice, and the metadata of every entry carries
/// the second of the modification time that the entry has.
pub open spec fn steady_listing(entries: Seq<FileEntryView>) -> bool {
    &&& forall|i: int, j: int|
        0 <= i < j < entries.len() ==> !#[trigger] names(entries, i, entries[j].path)
    &&& forall|i: int|
        0 <= i < entries.len() ==> (match (#[trigger] entries[i]).modified {
            Some(time) => entries[i].metadata.modified_at == Some(time.secs),
            None => true,
        })
}

/// The modification times that the scanner remembers are those of the
/// listing.
pub open spec fn times_agree(s: ScannerView, entries: Seq<FileEntryView>) -> bool {
    forall|i: int|
        0 <= i < entries.len() && s.cached_modify_times.contains_key((#[trigger] entries[i]).path)
            ==> s.cached_modify_times[entries[i].path] == entries[i].modified
}

/// The entry `a` comes before the entry `b` in the order of files, by the
/// times of the listing.
pub open spec fn listed_before(entries: Seq<FileEntryView>, a: int, b: int) -> bool {
    &&& entries[a].modified is Some
    &&& entries[b].modified is Some
    &&& stamp_lt(
        entries[a].modified.unwrap(),
        entries[a].path,
        entries[b].modified.unwrap(),
        entries[b].path,
    )
}

/// The scanner has taken up files of the listing in their order and nothing
/// else: every known file is listed with a modification time and is known
/// under the second of that time, and every listed file that comes before a
/// known one is known too.
pub open spec fn follows_listing(s: ScannerView, entries: Seq<FileEntryView>) -> bool {
    &&& times_agree(s, entries)
    &&& forall|path: Seq<char>| #[trigger]
        s.known_files.contains_key(path) ==> exists|i: int| names(entries, i, path)
    &&& forall|i: int|
        0 <= i < entries.len() && s.known_files.contains_key((#[trigger] entries[i]).path) ==> {
            &&& entries[i].modified is Some
            &&& s.known_files[entries[i].path] == entries[i].modified.unwrap().secs
        }
    &&& forall|i: int, j: int|
        0 <= i < entries.len() && 0 <= j < entries.len() && s.known_files.contains_key(
            entries[i].path,
        ) && #[trigger] listed_before(entries, j, i) ==> s.known_files.contains_key(
            entries[j].path,
        )
}

/// A scanner that knows no file and remembers no time follows every listing.
pub proof fn lemma_new_scanner_follows_listing(s: ScannerView, entries: Seq<FileEntryView>)
    requires
        s.known_files == Map::<Seq<char>, u64>::empty(),
        s.cached_modify_times == Map::<Seq<char>, Option<FileTime>>::empty(),
    ensures
        follows_listing(s, entries),
{
}

/// A time that was remembered stays as it is while the scanner looks at a
/// listing.
proof fn lemma_memo_keeps(
    memo: Map<Seq<char>, Option<FileTime>>,
    skip: Set<Seq<char>>,
    entries: Seq<FileEntryView>,
    n: int,
    path: Seq<char>,
)
    requires
        memo.contains_key(path),
    ensures
        memo_through(memo, skip, entries, n).contains_key(path),
        memo_through(memo, skip, entries, n)[path] == memo[path],
    decreases n,
{
    if n > 0 {
        lemma_memo_keeps(memo, skip, entries, n - 1, path);
    }
}

/// A time that the scanner remembers after it has looked at a listing was
/// remembered before, or is the time of a listed entry that is not skipped.
proof fn lemma_memo_origin(
    memo: Map<Seq<char>, Option<FileTime>>,
    skip: Set<Seq<char>>,
    entries: Seq<FileEntryView>,
    n: int,
    path: Seq<char>,
)
    requires
        0 <= n <= entries.len(),
        memo_through(memo, skip, entries, n).contains_key(path),
    ensures
        memo.contains_key(path) || exists|j: int|
            j < n && names(entries, j, path) && !skip.contains(path) && memo_through(
                memo,
                skip,
                entries,
                n,
            )[path] == entries[j].modified,
    decreases n,
{
    if n > 0 && !memo.contains_key(path) {
        let before = memo_through(memo, skip, entries, n - 1);
        let entry = entries[n - 1];
        if skip.contains(entry.path) || before.contains_key(entry.path) || entry.path != path {
            lemma_memo_origin(memo, skip, entries, n - 1, path);
            let j = choose|j: int|
                j < n - 1 && names(entries, j, path) && !skip.contains(path) && before[path]
                    == entries[j].modified;
            assert(j < n && names(entries, j, path));
        } else {
            assert(names(entries, n - 1, path));
        }
    }
}

/// Where the remembered times are those of a steady listing, the time that
/// the scanner goes by for an entry that is not skipped is the time of the
/// listing.
proof fn lemma_effective_time(
    s: ScannerView,
    skip: Set<Seq<char>>,
    entries: Seq<FileEntryView>,
    i: int,
)
    requires
        steady_listing(entries),
        times_agree(s, entries),
        0 <= i < entries.len(),
        !skip.contains(entries[i].path),
    ensures
        effective_time(s, skip, entries, i) == entries[i].modified,
{
    if !s.streaming_mode.spec_are_deletions_enabled() {
        let memo = s.cached_modify_times;
        let path = entries[i].path;
        let before = memo_through(memo, skip, entries, i);
        assert(memo_through(memo, skip, entries, i + 1) == if before.contains_key(path) {
            before
        } else {
            before.insert(path, entries[i].modified)
        });
        if before.contains_key(path) {
            lemma_memo_origin(memo, skip, entries, i, path);
            if memo.contains_key(path) {
                lemma_memo_keeps(memo, skip, entries, i, path);
            } else {
                let j = choose|j: int|
                    j < i && names(entries, j, path) && !skip.contains(path) && before[path]
                        == entries[j].modified;
                assert(!names(entries, j, entries[i].path));
            }
        }
    }
}

/// Looking at a steady listing leaves the remembered times in agreement
/// with it.
proof fn lemma_memo_agrees(
    s: ScannerView,
    skip: Set<Seq<char>>,
    entries: Seq<FileEntryView>,
    n: int,
)
    requires
        steady_listing(entries),
        times_agree(s, entries),
        0 <= n <= entries.len(),
    ensures
        times_agree(
            ScannerView {
                cached_modify_times: memo_through(s.cached_modify_times, skip, entries, n),
                ..s
            },
            entries,
        ),
{
    let memo = s.cached_modify_times;
    let after = memo_through(memo, skip, entries, n);
    assert forall|i: int|
        0 <= i < entries.len() && after.contains_key(
            (#[trigger] entries[i]).path,
        ) implies after[entries[i].path] == entries[i].modified by {
        let path = entries[i].path;
        lemma_memo_origin(memo, skip, entries, n, path);
        if memo.contains_key(path) {
            lemma_memo_keeps(memo, skip, entries, n, path);
        } else {
            let j = choose|j: int|
                j < n && names(entries, j, path) && !skip.contains(path) && after[path]
                    == entries[j].modified;
            if j < i {
                assert(!names(entries, j, entries[i].path));
            } else if i < j {
                assert(!names(entries, i, entries[j].path));
            }
        }
    }
}

/// What a seek marks as read in a steady listing: the listed files with a
/// modification time that do not come after the target, each under the
/// second of its time.
proof fn lemma_seek_known(
    t: ScannerView,
    entries: Seq<FileEntryView>,
    target: FileTime,
    seek_path: Seq<char>,
    n: int,
    i: int,
)
    requires
        steady_listing(entries),
        times_agree(t, entries),
        0 <= n <= entries.len(),
        0 <= i < entries.len(),
    ensures
        seek_known(t, entries, target, seek_path, n).contains_key(entries[i].path) <==> {
            &&& i < n
            &&& entries[i].modified is Some
            &&& !stamp_lt(target, seek_path, entries[i].modified.unwrap(), entries[i].path)
        },
        seek_known(t, entries, target, seek_path, n).contains_key(entries[i].path) ==> seek_known(
            t,
            entries,
            target,
            seek_path,
            n,
        )[entries[i].path] == entries[i].modified.unwrap().secs,
    decreases n,
{
    if n > 0 {
        lemma_seek_known(t, entries, target, seek_path, n - 1, i);
        lemma_effective_time(t, Set::empty(), entries, n - 1);
        if i < n - 1 {
            assert(!names(entries, i, entries[n - 1].path));
        } else if i > n - 1 {
            assert(!names(entries, n - 1, entries[i].path));
        }
    }
}

/// A seek marks only listed files as read.
proof fn lemma_seek_known_is_listed(
    t: ScannerView,
    entries: Seq<FileEntryView>,
    target: FileTime,
    seek_path: Seq<char>,
    n: int,
    path: Seq<char>,
)
    requires
        0 <= n <= entries.len(),
        seek_known(t, entries, target, seek_path, n).contains_key(path),
    ensures
        exists|i: int| names(entries, i, path),
    decreases n,
{
    if n > 0 {
        if entries[n - 1].path == path {
            assert(names(entries, n - 1, path));
        } else {
            lemma_seek_known_is_listed(t, entries, target, seek_path, n - 1, path);
        }
    }
}

/// The state of a run that has just taken up the entry `c` of a listing.
pub open spec fn taken_up(
    s: ScannerView,
    entries: Seq<FileEntryView>,
    c: int,
    now: u64,
) -> ScannerView {
    after_initiation(
        ScannerView {
            current_action: None,
            next_file_for_insertion: None,
            cached_modify_times: memo_after(s, s.known_files.dom(), entries),
            ..s
        },
        entries[c].path,
        entries[c].metadata,
        now,
    )
}

/// A run that takes up the next file of a steady listing goes on following
/// the listing.
proof fn lemma_taking_up_follows_listing(
    s: ScannerView,
    entries: Seq<FileEntryView>,
    c: int,
    now: u64,
)
    requires
        steady_listing(entries),
        follows_listing(s, entries),
        insertion_choice(s, entries, c),
    ensures
        entries[c].modified is Some,
        follows_listing(taken_up(s, entries, c, now), entries),
{
    let skip = s.known_files.dom();
    let next = taken_up(s, entries, c, now);
    assert(is_candidate(s, entries, c));
    lemma_effective_time(s, skip, entries, c);
    let time = entries[c].modified.unwrap();
    assert(next.known_files == s.known_files.insert(entries[c].path, time.secs));
    if !s.streaming_mode.spec_are_deletions_enabled() {
        lemma_memo_agrees(s, skip, entries, entries.len() as int);
    }
    assert(times_agree(next, entries));
    assert forall|path: Seq<char>| #[trigger] next.known_files.contains_key(path) implies exists|
        i: int,
    | names(entries, i, path) by {
        if path == entries[c].path {
            assert(names(entries, c, path));
        } else {
            assert(s.known_files.contains_key(path));
        }
    }
    assert forall|i: int|
        0 <= i < entries.len() && next.known_files.contains_key(
            (#[trigger] entries[i]).path,
        ) implies entries[i].modified is Some && next.known_files[entries[i].path]
        == entries[i].modified.unwrap().secs by {
        if i < c {
            assert(!names(entries, i, entries[c].path));
        } else if c < i {
            assert(!names(entries, c, entries[i].path));
        }
    }
    assert forall|i: int, j: int|
        0 <= i < entries.len() && 0 <= j < entries.len() && next.known_files.contains_key(
            entries[i].path,
        ) && #[trigger] listed_before(entries, j, i) implies next.known_files.contains_key(
        entries[j].path,
    ) by {
        if s.known_files.contains_key(entries[i].path) {
            assert(s.known_files.contains_key(entries[j].path));
        } else {
            assert(entries[i].path == entries[c].path);
            if i < c {
                assert(!names(entries, i, entries[c].path));
            } else if c < i {
                assert(!names(entries, c, entries[i].path));
            }
            assert(i == c);
            if !s.known_files.contains_key(entries[j].path) {
                lemma_effective_time(s, skip, entries, j);
                assert(is_candidate(s, entries, j));
                assert(precedes(s, entries, j, c));
                crate::scanner::lemma_stamp_lt_asymmetric(
                    entries[j].modified.unwrap(),
                    entries[j].path,
                    time,
                    entries[c].path,
                );
            }
        }
    }
}

/// A seek to the file that a run has just taken up from a steady listing
/// marks as read exactly the files that the run knows.
proof fn lemma_seek_marks_what_the_run_knows(
    s: ScannerView,
    entries: Seq<FileEntryView>,
    c: int,
    now: u64,
    sought_from: ScannerView,
)
    requires
        steady_listing(entries),
        follows_listing(s, entries),
        insertion_choice(s, entries, c),
        times_agree(sought_from, entries),
    ensures
        entries[c].modified is Some,
        after_seek(sought_from, entries[c].path, entries[c].modified, entries).known_files
            == taken_up(s, entries, c, now).known_files,
{
    let skip = s.known_files.dom();
    let run = taken_up(s, entries, c, now);
    assert(is_candidate(s, entries, c));
    lemma_effective_time(s, skip, entries, c);
    let time = entries[c].modified.unwrap();
    let seek_path = entries[c].path;
    let n = entries.len() as int;
    let marked = seek_known(sought_from, entries, time, seek_path, n);
    assert(run.known_files == s.known_files.insert(seek_path, time.secs));
    assert forall|path: Seq<char>| #[trigger] marked.contains_key(path) implies run.known_files.contains_key(
        path,
    ) && run.known_files[path] == marked[path] by {
        lemma_seek_known_is_listed(sought_from, entries, time, seek_path, n, path);
        let j = choose|j: int| names(entries, j, path);
        lemma_seek_known(sought_from, entries, time, seek_path, n, j);
        if !s.known_files.contains_key(path) && j != c {
            lemma_effective_time(s, skip, entries, j);
            assert(is_candidate(s, entries, j));
            crate::scanner::lemma_stamp_lt_total(time, seek_path, entries[j].modified.unwrap(), path);
            if j < c {
                assert(precedes(s, entries, c, j));
                assert(!names(entries, j, entries[c].path));
            } else {
                assert(!precedes(s, entries, j, c));
                assert(!names(entries, c, entries[j].path));
            }
        }
    }
    assert forall|path: Seq<char>| #[trigger] run.known_files.contains_key(path) implies marked.contains_key(
        path,
    ) by {
        if path == seek_path {
            lemma_seek_known(sought_from, entries, time, seek_path, n, c);
            crate::scanner::lemma_stamp_lt_asymmetric(time, seek_path, time, seek_path);
        } else {
            assert(s.known_files.contains_key(path));
            let j = choose|j: int| names(entries, j, path);
            lemma_seek_known(sought_from, entries, time, seek_path, n, j);
            if stamp_lt(time, seek_path, entries[j].modified.unwrap(), path) {
                assert(listed_before(entries, c, j));
            }
        }
    }
    assert(marked.dom() =~= run.known_files.dom());
    assert(marked =~= run.known_files);
}

/// A seek puts a scanner where a run stood. Let a run that follows a steady
/// listing take up the entry `c` of it. Then the run goes on following the
/// listing; and a scanner that seeks to that file, with the modification
/// time that the listing tells, knows the same files under the same seconds
/// and has the same file in hand.
pub proof fn lemma_seek_agrees_with_run(
    s: ScannerView,
    snap: SnapshotView,
    now: u64,
    next: ScannerView,
    out: OutcomeView,
    c: int,
    sought_from: ScannerView,
)
    requires
        steady_listing(snap.matching),
        follows_listing(s, snap.matching),
        s.next_file_for_insertion is None,
        pump(s, snap, now, next, out),
        0 <= c < snap.matching.len(),
        next.current_action == Some(ActionView::Read(snap.matching[c].path)),
        times_agree(sought_from, snap.matching),
    ensures
        follows_listing(next, snap.matching),
        out.result == Some(ReadResultView::NewSource(Some(snap.matching[c].metadata))),
        snap.matching[c].modified is Some,
        after_seek(
            sought_from,
            snap.matching[c].path,
            snap.matching[c].modified,
            snap.matching,
        ).known_files == next.known_files,
        after_seek(
            sought_from,
            snap.matching[c].path,
            snap.matching[c].modified,
            snap.matching,
        ).current_action == next.current_action,
{
    let entries = snap.matching;
    let idle = ScannerView { current_action: None, next_file_for_insertion: None, ..s };
    let looked = ScannerView {
        cached_modify_times: memo_after(s, s.known_files.dom(), entries),
        ..idle
    };
    let chosen = choose|chosen: int|
        {
            &&& #[trigger] insertion_choice(s, entries, chosen)
            &&& next == after_initiation(
                looked,
                entries[chosen].path,
                entries[chosen].metadata,
                now,
            )
            &&& out.result == Some(ReadResultView::NewSource(Some(entries[chosen].metadata)))
        };
    assert(is_candidate(s, entries, chosen));
    if chosen < c {
        assert(!names(entries, chosen, entries[c].path));
    } else if c < chosen {
        assert(!names(entries, c, entries[chosen].path));
    }
    assert(next == taken_up(s, entries, c, now));
    lemma_taking_up_follows_listing(s, entries, c, now);
    lemma_seek_marks_what_the_run_knows(s, entries, c, now, sought_from);
}

/// Which file is taken up next depends only on the files that are known:
/// two scanners that know the same files of a steady listing, and whose
/// remembered times are those of the listing, take up the same entry.
pub proof fn lemma_choice_depends_on_known_files(
    a: ScannerView,
    b: ScannerView,
    entries: Seq<FileEntryView>,
    c: int,
)
    requires
        steady_listing(entries),
        times_agree(a, entries),
        times_agree(b, entries),
        a.known_files.dom() == b.known_files.dom(),
        insertion_choice(a, entries, c),
    ensures
        insertion_choice(b, entries, c),
{
    let skip = a.known_files.dom();
    assert forall|j: int| 0 <= j < entries.len() implies is_candidate(a, entries, j)
        == is_candidate(b, entries, j) && (is_candidate(a, entries, j) ==> effective_time(
        a,
        skip,
        entries,
        j,
    ) == effective_time(b, skip, entries, j)) by {
        if !skip.contains(entries[j].path) {
            lemma_effective_time(a, skip, entries, j);
            lemma_effective_time(b, skip, entries, j);
        }
    }
    assert(is_candidate(a, entries, c));
    assert forall|j: int|
        j < entries.len() && #[trigger] is_candidate(b, entries, j) implies (if j < c {
            precedes(b, entries, c, j)
        } else {
            !precedes(b, entries, j, c)
        }) by {
        assert(is_candidate(a, entries, j));
    }
}

/// The entry `i` of the listing is `entry`.
pub open spec fn lists(entries: Seq<FileEntryView>, i: int, entry: FileEntryView) -> bool {
    0 <= i < entries.len() && entries[i] == entry
}

/// The listing holds `entry`.
pub open spec fn listed(entries: Seq<FileEntryView>, entry: FileEntryView) -> bool {
    exists|j: int| lists(entries, j, entry)
}

/// Two listings name the same files: every entry of one is an entry of the
/// other, in whatever order.
pub open spec fn same_files(a: Seq<FileEntryView>, b: Seq<FileEntryView>) -> bool {
    &&& forall|i: int| 0 <= i < a.len() ==> listed(b, #[trigger] a[i])
    &&& forall|i: int| 0 <= i < b.len() ==> listed(a, #[trigger] b[i])
}

/// Naming the same files goes both ways.
proof fn lemma_same_files_symmetric(a: Seq<FileEntryView>, b: Seq<FileEntryView>)
    requires
        same_files(a, b),
    ensures
        same_files(b, a),
{
}

/// A listing that was looked at holds a time for every entry that is not
/// skipped.
proof fn lemma_memo_covers(
    memo: Map<Seq<char>, Option<FileTime>>,
    skip: Set<Seq<char>>,
    entries: Seq<FileEntryView>,
    n: int,
    j: int,
)
    requires
        0 <= j < n <= entries.len(),
        !skip.contains(entries[j].path),
    ensures
        memo_through(memo, skip, entries, n).contains_key(entries[j].path),
    decreases n,
{
    if j < n - 1 {
        lemma_memo_covers(memo, skip, entries, n - 1, j);
    }
}

/// The times that the scanner remembers of a listing that named the same
/// files in another order agree with this listing too.
proof fn lemma_times_agree_with_same_files(
    s: ScannerView,
    a: Seq<FileEntryView>,
    b: Seq<FileEntryView>,
)
    requires
        same_files(a, b),
        times_agree(s, a),
    ensures
        times_agree(s, b),
{
    assert forall|i: int|
        0 <= i < b.len() && s.cached_modify_times.contains_key(
            (#[trigger] b[i]).path,
        ) implies s.cached_modify_times[b[i].path] == b[i].modified by {
        assert(listed(a, b[i]));
        let j = choose|j: int| lists(a, j, b[i]);
        assert(a[j].path == b[i].path);
    }
}

/// What the scanner remembers after it has looked at one of two listings of
/// the same files is contained in what it remembers after it has looked at
/// the other.
proof fn lemma_memo_of_same_files(
    s: ScannerView,
    skip: Set<Seq<char>>,
    a: Seq<FileEntryView>,
    b: Seq<FileEntryView>,
    path: Seq<char>,
)
    requires
        steady_listing(a),
        steady_listing(b),
        same_files(a, b),
        memo_through(s.cached_modify_times, skip, a, a.len() as int).contains_key(path),
    ensures
        memo_through(s.cached_modify_times, skip, b, b.len() as int).contains_key(path),
        memo_through(s.cached_modify_times, skip, b, b.len() as int)[path] == memo_through(
            s.cached_modify_times,
            skip,
            a,
            a.len() as int,
        )[path],
{
    let memo = s.cached_modify_times;
    let na = a.len() as int;
    let nb = b.len() as int;
    if memo.contains_key(path) {
        lemma_memo_keeps(memo, skip, a, na, path);
        lemma_memo_keeps(memo, skip, b, nb, path);
    } else {
        lemma_memo_origin(memo, skip, a, na, path);
        let i = choose|i: int|
            i < na && names(a, i, path) && !skip.contains(path) && memo_through(
                memo,
                skip,
                a,
                na,
            )[path] == a[i].modified;
        assert(listed(b, a[i]));
        let j = choose|j: int| lists(b, j, a[i]);
        lemma_memo_covers(memo, skip, b, nb, j);
        lemma_memo_origin(memo, skip, b, nb, path);
        let k = choose|k: int|
            k < nb && names(b, k, path) && !skip.contains(path) && memo_through(
                memo,
                skip,
                b,
                nb,
            )[path] == b[k].modified;
        if k < j {
            assert(!names(b, k, b[j].path));
        } else if j < k {
            assert(!names(b, j, b[k].path));
        }
    }
}

/// The file that is taken up next does not depend on the order of the
/// listing: from two listings of the same files the scanner picks the same
/// entry.
proof fn lemma_choice_of_same_files(
    s: ScannerView,
    a: Seq<FileEntryView>,
    b: Seq<FileEntryView>,
    ca: int,
    cb: int,
)
    requires
        steady_listing(a),
        steady_listing(b),
        same_files(a, b),
        times_agree(s, a),
        insertion_choice(s, a, ca),
        insertion_choice(s, b, cb),
    ensures
        a[ca] == b[cb],
{
    let skip = s.known_files.dom();
    lemma_times_agree_with_same_files(s, a, b);
    assert(is_candidate(s, a, ca));
    assert(is_candidate(s, b, cb));
    lemma_effective_time(s, skip, a, ca);
    lemma_effective_time(s, skip, b, cb);
    assert(listed(b, a[ca]));
    assert(listed(a, b[cb]));
    let j = choose|j: int| lists(b, j, a[ca]);
    let i = choose|i: int| lists(a, i, b[cb]);
    lemma_effective_time(s, skip, b, j);
    lemma_effective_time(s, skip, a, i);
    assert(is_candidate(s, b, j));
    assert(is_candidate(s, a, i));
    let ta = a[ca].modified.unwrap();
    let tb = b[cb].modified.unwrap();
    crate::scanner::lemma_stamp_lt_asymmetric(ta, a[ca].path, tb, b[cb].path);
    crate::scanner::lemma_stamp_lt_total(ta, a[ca].path, tb, b[cb].path);
    assert(precedes(s, b, j, cb) == stamp_lt(ta, a[ca].path, tb, b[cb].path));
    assert(precedes(s, b, cb, j) == stamp_lt(tb, b[cb].path, ta, a[ca].path));
    assert(precedes(s, a, i, ca) == stamp_lt(tb, b[cb].path, ta, a[ca].path));
    assert(precedes(s, a, ca, i) == stamp_lt(ta, a[ca].path, tb, b[cb].path));
    assert(a[ca].path == b[cb].path);
    if j < cb {
        assert(!names(b, j, b[cb].path));
    } else if cb < j {
        assert(!names(b, cb, b[j].path));
    }
}

/// The order of a listing is without effect. Two steps of the pump from one
/// state, on snapshots that differ only in the order in which they list the
/// same files, lead to the same state and give the same answer. So two
/// scanners that start alike emit the same events, in whatever order the
/// directory is enumerated.
pub proof fn lemma_listing_order_is_without_effect(
    s: ScannerView,
    snap: SnapshotView,
    other: SnapshotView,
    now: u64,
    next: ScannerView,
    out: OutcomeView,
    other_next: ScannerView,
    other_out: OutcomeView,
)
    requires
        steady_listing(snap.matching),
        steady_listing(other.matching),
        same_files(snap.matching, other.matching),
        other.known == snap.known,
        other.planned == snap.planned,
        times_agree(s, snap.matching),
        pump(s, snap, now, next, out),
        pump(s, other, now, other_next, other_out),
    ensures
        other_next == next,
        other_out == out,
{
    let a = snap.matching;
    let b = other.matching;
    let skip = s.known_files.dom();
    let idle = ScannerView { current_action: None, next_file_for_insertion: None, ..s };
    if s.next_file_for_insertion is None {
        if s.streaming_mode.spec_are_deletions_enabled() && exists|path: Seq<char>|
            crate::scanner::is_due(s, snap.known, path) {
            let left = choose|path: Seq<char>|
                {
                    &&& #[trigger] crate::scanner::deletion_choice(s, snap.known, path)
                    &&& next == crate::scanner::after_deletion(idle, snap.known, path)
                    &&& out.result == Some(ReadResultView::NewSource(s.cached_metadata[path]))
                    &&& out.copy_to_cache is None
                };
            let right = choose|path: Seq<char>|
                {
                    &&& #[trigger] crate::scanner::deletion_choice(s, snap.known, path)
                    &&& other_next == crate::scanner::after_deletion(idle, snap.known, path)
                    &&& other_out.result == Some(
                        ReadResultView::NewSource(s.cached_metadata[path]),
                    )
                    &&& other_out.copy_to_cache is None
                };
            crate::scanner::lemma_deletion_choice_unique(s, snap.known, left, right);
        } else {
            lemma_times_agree_with_same_files(s, a, b);
            lemma_same_files_symmetric(a, b);
            // both listings leave the same times remembered
            let memo_a = memo_after(s, skip, a);
            let memo_b = memo_after(s, skip, b);
            if !s.streaming_mode.spec_are_deletions_enabled() {
                assert forall|path: Seq<char>| #[trigger]
                    memo_a.contains_key(path) implies memo_b.contains_key(path) && memo_b[path]
                    == memo_a[path] by {
                    lemma_memo_of_same_files(s, skip, a, b, path);
                }
                assert forall|path: Seq<char>| #[trigger]
                    memo_b.contains_key(path) implies memo_a.contains_key(path) by {
                    lemma_memo_of_same_files(s, skip, b, a, path);
                }
                assert(memo_a =~= memo_b);
            }
            // a file can be taken up from one listing if and only if it can
            // from the other
            assert forall|i: int| is_candidate(s, a, i) implies exists|j: int|
                is_candidate(s, b, j) by {
                lemma_effective_time(s, skip, a, i);
                assert(listed(b, a[i]));
                let j = choose|j: int| lists(b, j, a[i]);
                lemma_effective_time(s, skip, b, j);
                assert(is_candidate(s, b, j));
            }
            assert forall|i: int| is_candidate(s, b, i) implies exists|j: int|
                is_candidate(s, a, j) by {
                lemma_effective_time(s, skip, b, i);
                assert(listed(a, b[i]));
                let j = choose|j: int| lists(a, j, b[i]);
                lemma_effective_time(s, skip, a, j);
                assert(is_candidate(s, a, j));
            }
            if exists|i: int| is_candidate(s, a, i) {
                let looked = ScannerView { cached_modify_times: memo_a, ..idle };
                let ca = choose|c: int|
                    {
                        &&& #[trigger] insertion_choice(s, a, c)
                        &&& next == after_initiation(looked, a[c].path, a[c].metadata, now)
                        &&& out.result == Some(ReadResultView::NewSource(Some(a[c].metadata)))
                        &&& out.copy_to_cache == crate::scanner::copy_order(
                            s.cache_directory,
                            a[c].path,
                        )
                    };
                let other_looked = ScannerView { cached_modify_times: memo_b, ..idle };
                let cb = choose|c: int|
                    {
                        &&& #[trigger] insertion_choice(s, b, c)
                        &&& other_next == after_initiation(
                            other_looked,
                            b[c].path,
                            b[c].metadata,
                            now,
                        )
                        &&& other_out.result == Some(
                            ReadResultView::NewSource(Some(b[c].metadata)),
                        )
                        &&& other_out.copy_to_cache == crate::scanner::copy_order(
                            s.cache_directory,
                            b[c].path,
                        )
                    };
                lemma_choice_of_same_files(s, a, b, ca, cb);
            }
        }
    }
}

/// The object `i` of the listing has the key `key`.
pub open spec fn holds(listing: Seq<TimedObjectView>, i: int, key: Seq<char>) -> bool {
    0 <= i < listing.len() && listing[i].key == key
}

/// The listing names no object twice.
pub open spec fn distinct_keys(listing: Seq<TimedObjectView>) -> bool {
    forall|i: int, j: int|
        0 <= i < j < listing.len() ==> !#[trigger] holds(listing, i, listing[j].key)
}

/// The object `a` comes before the object `b` in the order of objects.
pub open spec fn object_listed_before(listing: Seq<TimedObjectView>, a: int, b: int) -> bool {
    &&& instant_of(listing, a) is Some
    &&& instant_of(listing, b) is Some
    &&& object_precedes(listing, a, b)
}

/// The scanner has taken up objects of the listing in their order and
/// nothing else: every object that is done with is listed with an instant
/// that can be read, and every listed object that comes before one that is
/// done with is done with too.
pub open spec fn follows_objects(s: S3ScannerView, listing: Seq<TimedObjectView>) -> bool {
    &&& forall|key: Seq<char>| #[trigger]
        s.processed_objects.contains(key) ==> exists|i: int| holds(listing, i, key)
    &&& forall|i: int|
        0 <= i < listing.len() && s.processed_objects.contains((#[trigger] listing[i]).key)
            ==> instant_of(listing, i) is Some
    &&& forall|i: int, j: int|
        0 <= i < listing.len() && 0 <= j < listing.len() && s.processed_objects.contains(
            listing[i].key,
        ) && #[trigger] object_listed_before(listing, j, i) ==> s.processed_objects.contains(
            listing[j].key,
        )
}

/// In a listing that names no object twice, the instant that a seek goes by
/// for an object is the instant of that object.
proof fn lemma_threshold(listing: Seq<TimedObjectView>, c: int, n: int)
    requires
        distinct_keys(listing),
        0 <= c < listing.len(),
        0 <= n <= listing.len(),
        instant_of(listing, c) is Some,
    ensures
        threshold_of(listing, listing[c].key, n) == if c < n {
            instant_of(listing, c)
        } else {
            None
        },
    decreases n,
{
    if n > 0 {
        lemma_threshold(listing, c, n - 1);
        if c < n - 1 {
            assert(!holds(listing, c, listing[n - 1].key));
        } else if c > n - 1 {
            assert(!holds(listing, n - 1, listing[c].key));
        }
    }
}

/// A seek puts a scanner of a bucket where a run stood. Let a run that
/// follows a listing without repeated keys take up the object `c` of it.
/// Then a seek to that object marks as done with exactly what the run is
/// done with, and the run goes on following the listing.
pub proof fn lemma_object_seek_agrees_with_run(
    s: S3ScannerView,
    listing: Seq<TimedObjectView>,
    c: int,
)
    requires
        distinct_keys(listing),
        follows_objects(s, listing),
        object_choice(s.processed_objects, listing, c),
    ensures
        processed_after_seek(listing, listing[c].key) == s.processed_objects.insert(
            listing[c].key,
        ),
        follows_objects(
            S3ScannerView {
                current_object: Some(listing[c].key),
                processed_objects: s.processed_objects.insert(listing[c].key),
                ..s
            },
            listing,
        ),
{
    let key_c = listing[c].key;
    let run = s.processed_objects.insert(key_c);
    let next = S3ScannerView { current_object: Some(key_c), processed_objects: run, ..s };
    assert(is_object_candidate(s.processed_objects, listing, c));
    let instant = instant_of(listing, c).unwrap();
    lemma_threshold(listing, c, listing.len() as int);
    let marked = processed_after_seek(listing, key_c);
    assert forall|key: Seq<char>| #[trigger] marked.contains(key) implies run.contains(key) by {
        if key != key_c && !s.processed_objects.contains(key) {
            let i = choose|i: int| #[trigger]
                is_before(listing, i, instant, key_c) && listing[i].key == key;
            assert(is_object_candidate(s.processed_objects, listing, i));
            assert(object_precedes(listing, i, c));
            if i < c {
                assert(object_precedes(listing, c, i));
                lemma_object_lt_transitive(
                    instant,
                    key_c,
                    instant_of(listing, i).unwrap(),
                    key,
                    instant,
                    key_c,
                );
                lemma_object_lt_irreflexive(instant, key_c);
            }
        }
    }
    assert forall|key: Seq<char>| #[trigger] run.contains(key) implies marked.contains(key) by {
        if key != key_c {
            assert(s.processed_objects.contains(key));
            let i = choose|i: int| holds(listing, i, key);
            let at = instant_of(listing, i).unwrap();
            lemma_object_lt_total(at, key, instant, key_c);
            if object_lt(instant, key_c, at, key) {
                assert(object_listed_before(listing, c, i));
            }
            assert(is_before(listing, i, instant, key_c));
        }
    }
    assert(marked =~= run);
    assert forall|key: Seq<char>| #[trigger] run.contains(key) implies exists|i: int|
        holds(listing, i, key) by {
        if key == key_c {
            assert(holds(listing, c, key));
        } else {
            assert(s.processed_objects.contains(key));
        }
    }
    assert forall|i: int|
        0 <= i < listing.len() && run.contains((#[trigger] listing[i]).key) implies instant_of(
        listing,
        i,
    ) is Some by {
        if i < c {
            assert(!holds(listing, i, listing[c].key));
        } else if c < i {
            assert(!holds(listing, c, listing[i].key));
        }
    }
    assert forall|i: int, j: int|
        0 <= i < listing.len() && 0 <= j < listing.len() && run.contains(listing[i].key)
            && #[trigger] object_listed_before(listing, j, i) implies run.contains(
        listing[j].key,
    ) by {
        if s.processed_objects.contains(listing[i].key) {
            assert(s.processed_objects.contains(listing[j].key));
        } else {
            if i < c {
                assert(!holds(listing, i, listing[c].key));
            } else if c < i {
                assert(!holds(listing, c, listing[i].key));
            }
            assert(i == c);
            if !s.processed_objects.contains(listing[j].key) {
                assert(is_object_candidate(s.processed_objects, listing, j));
                if j < c {
                    assert(object_precedes(listing, c, j));
                    lemma_object_lt_transitive(
                        instant,
                        key_c,
                        instant_of(listing, j).unwrap(),
                        listing[j].key,
                        instant,
                        key_c,
                    );
                    lemma_object_lt_irreflexive(instant, key_c);
                }
            }
        }
    }
    assert(follows_objects(next, listing));
}

} // verus!
