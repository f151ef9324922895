//! Readers over the objects of a bucket. The driver owns the bucket handle
//! and the stream of the object in hand; which object is streamed next, what
//! a seek marks as done, and what each read yields is decided here.

use crate::bindings::{parse_rfc3339, rfc3339_instant};
use crate::filesystem::ReadMethod;
use crate::offset::{
    OffsetAntichain, OffsetKey, OffsetKeyView, OffsetValue, OffsetValueView, StorageType,
};
use crate::reader::{
    counts_entry, optional_result_view, position_handed_on, CountedStep, ReadError, ReadResult,
    ReadResultView, ReaderContext, ReaderContextView, S3CommandName, S3Failure,
};
use crate::string_map::StringMap;
use crate::text::{optional_text_view, text_equal, text_less, text_lt, texts_view};
use crate::value::DataEventType;
use vstd::prelude::*;

verus! {

/// One object of a listing: its key and the time of its last modification
/// as the store writes it, in RFC 3339.
#[derive(Debug)]
pub struct ObjectEntry {
    pub key: String,
    pub last_modified: String,
}

/// The mathematical content of an [`ObjectEntry`].
pub struct ObjectEntryView {
    pub key: Seq<char>,
    pub last_modified: Seq<char>,
}

impl View for ObjectEntry {
    type V = ObjectEntryView;

    open spec fn view(&self) -> ObjectEntryView {
        ObjectEntryView { key: self.key@, last_modified: self.last_modified@ }
    }
}

/// The content of each object of a listing, in order.
pub open spec fn objects_view(listing: Seq<ObjectEntry>) -> Seq<ObjectEntryView> {
    Seq::new(listing.len(), |i: int| listing[i]@)
}

/// The order in which objects are taken up: by the instant of their last
/// modification, and by key among objects modified at the same instant.
pub open spec fn object_lt(ta: (i64, u32), ka: Seq<char>, tb: (i64, u32), kb: Seq<char>) -> bool {
    ||| ta.0 < tb.0
    ||| ta.0 == tb.0 && ta.1 < tb.1
    ||| ta == tb && text_lt(ka, kb)
}

/// Whether the object `ka` modified at `ta` is taken up before `kb`
/// modified at `tb`.
pub fn object_less(ta: (i64, u32), ka: &str, tb: (i64, u32), kb: &str) -> (r: bool)
    ensures
        r == object_lt(ta, ka@, tb, kb@),
{
    if ta.0 != tb.0 {
        ta.0 < tb.0
    } else if ta.1 != tb.1 {
        ta.1 < tb.1
    } else {
        text_less(ka, kb)
    }
}

/// One object of a listing with the time of its last modification read: the
/// instant in seconds since the Unix epoch and nanoseconds, or nothing where
/// the time cannot be read.
#[derive(Debug)]
pub struct TimedObject {
    pub key: String,
    pub instant: Option<(i64, u32)>,
}

/// The mathematical content of a [`TimedObject`].
pub struct TimedObjectView {
    pub key: Seq<char>,
    pub instant: Option<(i64, u32)>,
}

impl View for TimedObject {
    type V = TimedObjectView;

    open spec fn view(&self) -> TimedObjectView {
        TimedObjectView { key: self.key@, instant: self.instant }
    }
}

/// The content of each timed object of a list, in order.
pub open spec fn timed_objects_view(objects: Seq<TimedObject>) -> Seq<TimedObjectView> {
    Seq::new(objects.len(), |i: int| objects[i]@)
}

/// A listing with the time of each object read as RFC 3339.
pub open spec fn with_instants(listing: Seq<ObjectEntryView>) -> Seq<TimedObjectView> {
    Seq::new(
        listing.len(),
        |i: int|
            TimedObjectView {
                key: listing[i].key,
                instant: rfc3339_instant(listing[i].last_modified),
            },
    )
}

/// The instant at which the object `i` of a listing was last modified, if
/// it could be read.
pub open spec fn instant_of(listing: Seq<TimedObjectView>, i: int) -> Option<(i64, u32)> {
    listing[i].instant
}

/// The state of a scanner of a bucket.
pub struct S3ScannerView {
    pub objects_prefix: Seq<char>,
    /// The key of the object that is being streamed.
    pub current_object: Option<Seq<char>>,
    /// The keys of the objects that are done with.
    pub processed_objects: Set<Seq<char>>,
}

/// The object `i` of a listing can be taken up: it is not done with, and the
/// instant of its last modification is known.
pub open spec fn is_object_candidate(
    done: Set<Seq<char>>,
    listing: Seq<TimedObjectView>,
    i: int,
) -> bool {
    &&& 0 <= i < listing.len()
    &&& !done.contains(listing[i].key)
    &&& instant_of(listing, i) is Some
}

/// The object `a` of a listing comes before the object `b` in the order of
/// objects.
pub open spec fn object_precedes(listing: Seq<TimedObjectView>, a: int, b: int) -> bool {
    object_lt(
        instant_of(listing, a).unwrap(),
        listing[a].key,
        instant_of(listing, b).unwrap(),
        listing[b].key,
    )
}

/// Among the first `n` objects of a listing, `c` is the one to take up next:
/// of the objects that can be taken up, the first in the order of objects,
/// and among equals the first in the listing.
pub open spec fn first_object(
    done: Set<Seq<char>>,
    listing: Seq<TimedObjectView>,
    c: int,
    n: int,
) -> bool {
    &&& c < n
    &&& is_object_candidate(done, listing, c)
    &&& forall|j: int|
        j < n && #[trigger] is_object_candidate(done, listing, j) ==> (if j < c {
            object_precedes(listing, c, j)
        } else {
            !object_precedes(listing, j, c)
        })
}

/// The object `c` of a listing is the one to take up next.
pub open spec fn object_choice(done: Set<Seq<char>>, listing: Seq<TimedObjectView>, c: int) -> bool {
    first_object(done, listing, c, listing.len() as int)
}

/// The instant of the last modification of the object `path`, as the first
/// `n` objects of a listing tell it: that of the last object with this key
/// whose instant is known.
pub open spec fn threshold_of(listing: Seq<TimedObjectView>, path: Seq<char>, n: int) -> Option<
    (i64, u32),
>
    decreases n,
{
    if n <= 0 {
        None
    } else if listing[n - 1].key == path && instant_of(listing, n - 1) is Some {
        instant_of(listing, n - 1)
    } else {
        threshold_of(listing, path, n - 1)
    }
}

/// The object `i` of a listing comes before the object `path` modified at
/// `threshold`.
pub open spec fn is_before(
    listing: Seq<TimedObjectView>,
    i: int,
    threshold: (i64, u32),
    path: Seq<char>,
) -> bool {
    &&& 0 <= i < listing.len()
    &&& instant_of(listing, i) is Some
    &&& object_lt(instant_of(listing, i).unwrap(), listing[i].key, threshold, path)
}

/// The keys that a seek to `path` marks as done with: where the listing
/// holds the object, every object before it in the order of objects, and
/// the object itself; and none where the listing does not hold it.
pub open spec fn processed_after_seek(listing: Seq<TimedObjectView>, path: Seq<char>) -> Set<
    Seq<char>,
> {
    match threshold_of(listing, path, listing.len() as int) {
        Some(threshold) => Set::new(
            |key: Seq<char>|
                key == path || exists|i: int|
                    #[trigger] is_before(listing, i, threshold, path) && listing[i].key == key,
        ),
        None => Set::empty(),
    }
}

/// Whether an answer of the store to a request for an object is good: only
/// the status 200 is.
pub fn check_get_object_status(code: u16) -> (r: Result<(), ReadError>)
    ensures
        match r {
            Ok(_) => code == 200,
            Err(e) => code != 200 && e == ReadError::S3(
                S3CommandName::GetObject,
                S3Failure::HttpFail,
            ),
        },
{
    if code != 200 {
        Err(ReadError::S3(S3CommandName::GetObject, S3Failure::HttpFail))
    } else {
        Ok(())
    }
}

/// Picks the objects of a bucket one after the other.
#[derive(Debug)]
pub struct S3Scanner {
    objects_prefix: String,
    current_object: Option<String>,
    processed_objects: StringMap<()>,
}

impl View for S3Scanner {
    type V = S3ScannerView;

    closed spec fn view(&self) -> S3ScannerView {
        S3ScannerView {
            objects_prefix: self.objects_prefix@,
            current_object: optional_text_view(self.current_object),
            processed_objects: self.processed_objects@.dom(),
        }
    }
}

/// The order of objects is strict: no object comes before itself.
pub proof fn lemma_object_lt_irreflexive(t: (i64, u32), k: Seq<char>)
    ensures
        !object_lt(t, k, t, k),
{
    crate::text::lemma_text_lt_irreflexive(k);
}

/// Two objects that differ in instant or key are ordered one way or the
/// other.
pub proof fn lemma_object_lt_total(ta: (i64, u32), ka: Seq<char>, tb: (i64, u32), kb: Seq<char>)
    ensures
        (ta == tb && ka == kb) || object_lt(ta, ka, tb, kb) || object_lt(tb, kb, ta, ka),
{
    crate::text::lemma_text_lt_total(ka, kb);
}

/// The order of objects is transitive.
pub proof fn lemma_object_lt_transitive(
    ta: (i64, u32),
    ka: Seq<char>,
    tb: (i64, u32),
    kb: Seq<char>,
    tc: (i64, u32),
    kc: Seq<char>,
)
    requires
        object_lt(ta, ka, tb, kb),
        object_lt(tb, kb, tc, kc),
    ensures
        object_lt(ta, ka, tc, kc),
{
    if ta == tb && tb == tc {
        crate::text::lemma_text_lt_transitive(ka, kb, kc);
    }
}

/// An entry that comes before the one chosen so far becomes the choice.
proof fn lemma_new_first_object(
    done: Set<Seq<char>>,
    listing: Seq<TimedObjectView>,
    c: int,
    i: int,
)
    requires
        first_object(done, listing, c, i),
        is_object_candidate(done, listing, i),
        object_precedes(listing, i, c),
    ensures
        first_object(done, listing, i, i + 1),
{
    let ti = instant_of(listing, i).unwrap();
    let tc = instant_of(listing, c).unwrap();
    assert forall|j: int|
        j < i + 1 && #[trigger] is_object_candidate(done, listing, j) implies (if j < i {
            object_precedes(listing, i, j)
        } else {
            !object_precedes(listing, j, i)
        }) by {
        let tj = instant_of(listing, j).unwrap();
        if j == i {
            lemma_object_lt_irreflexive(ti, listing[i].key);
        } else if j < c {
            lemma_object_lt_transitive(ti, listing[i].key, tc, listing[c].key, tj, listing[j].key);
        } else if j > c {
            lemma_object_lt_total(tc, listing[c].key, tj, listing[j].key);
            if object_lt(tc, listing[c].key, tj, listing[j].key) {
                lemma_object_lt_transitive(
                    ti,
                    listing[i].key,
                    tc,
                    listing[c].key,
                    tj,
                    listing[j].key,
                );
            }
        }
    }
}

/// Reads the time of the last modification of each object of a listing.
pub fn read_instants(listing: &Vec<ObjectEntry>) -> (objects: Vec<TimedObject>)
    ensures
        timed_objects_view(objects@) == with_instants(objects_view(listing@)),
{
    let mut objects: Vec<TimedObject> = Vec::new();
    let mut i: usize = 0;
    while i < listing.len()
        invariant
            i <= listing.len(),
            objects.len() == i,
            forall|j: int|
                0 <= j < i ==> (#[trigger] objects[j])@ == with_instants(objects_view(listing@))[j],
        decreases listing.len() - i,
    {
        let object = &listing[i];
        assert(objects_view(listing@)[i as int] == object@);
        objects.push(
            TimedObject {
                key: object.key.clone(),
                instant: parse_rfc3339(object.last_modified.as_str()),
            },
        );
        i += 1;
    }
    assert(timed_objects_view(objects@) =~= with_instants(objects_view(listing@)));
    objects
}

/// Picks the object to take up next: of the objects that are not done with
/// and whose instant is known, the first in the order of objects. Nothing
/// is picked where there is no such object.
pub fn next_object(objects: &Vec<TimedObject>, done: &StringMap<()>) -> (r: Option<usize>)
    ensures
        match r {
            Some(c) => c < objects.len() && object_choice(
                done@.dom(),
                timed_objects_view(objects@),
                c as int,
            ),
            None => forall|i: int|
                !is_object_candidate(done@.dom(), timed_objects_view(objects@), i),
        },
{
    let ghost listing = timed_objects_view(objects@);
    let ghost skip = done@.dom();
    let mut selected: Option<usize> = None;
    let mut i: usize = 0;
    while i < objects.len()
        invariant
            i <= objects.len(),
            listing == timed_objects_view(objects@),
            skip == done@.dom(),
            match selected {
                Some(c) => first_object(skip, listing, c as int, i as int),
                None => forall|j: int| j < i ==> !is_object_candidate(skip, listing, j),
            },
        decreases objects.len() - i,
    {
        let object = &objects[i];
        assert(listing[i as int] == object@);
        let mut takes_over = false;
        if !done.contains_key(object.key.as_str()) {
            match object.instant {
                Some(last_modified) => {
                    assert(is_object_candidate(skip, listing, i as int));
                    match selected {
                        Some(c) => {
                            assert(listing[c as int] == objects[c as int]@);
                            assert(is_object_candidate(skip, listing, c as int));
                            if object_less(
                                last_modified,
                                object.key.as_str(),
                                objects[c].instant.unwrap(),
                                objects[c].key.as_str(),
                            ) {
                                proof {
                                    lemma_new_first_object(skip, listing, c as int, i as int);
                                }
                                takes_over = true;
                            }
                        },
                        None => {
                            proof {
                                lemma_object_lt_irreflexive(last_modified, listing[i as int].key);
                                assert(first_object(skip, listing, i as int, i + 1));
                            }
                            takes_over = true;
                        },
                    }
                },
                None => {
                    assert(!is_object_candidate(skip, listing, i as int));
                },
            }
        } else {
            assert(!is_object_candidate(skip, listing, i as int));
        }
        if takes_over {
            selected = Some(i);
        } else {
            proof {
                if selected is Some {
                    assert(first_object(skip, listing, selected.unwrap() as int, i + 1));
                }
            }
        }
        i += 1;
    }
    selected
}

/// The keys that a seek to the object `path` marks as done with. See
/// [`processed_after_seek`].
pub fn objects_done_at(objects: &Vec<TimedObject>, path: &str) -> (done: StringMap<()>)
    ensures
        done.wf(),
        done@.dom() == processed_after_seek(timed_objects_view(objects@), path@),
{
    let ghost listing = timed_objects_view(objects@);
    let mut done: StringMap<()> = StringMap::new();
    let mut threshold_modification_time: Option<(i64, u32)> = None;
    let mut i: usize = 0;
    while i < objects.len()
        invariant
            i <= objects.len(),
            listing == timed_objects_view(objects@),
            threshold_modification_time == threshold_of(listing, path@, i as int),
        decreases objects.len() - i,
    {
        let object = &objects[i];
        assert(listing[i as int] == object@);
        if text_equal(object.key.as_str(), path) {
            match object.instant {
                Some(last_modified) => {
                    threshold_modification_time = Some(last_modified);
                },
                None => {},
            }
        }
        i += 1;
    }
    match threshold_modification_time {
        Some(threshold) => {
            let mut k: usize = 0;
            while k < objects.len()
                invariant
                    k <= objects.len(),
                    done.wf(),
                    listing == timed_objects_view(objects@),
                    forall|key: Seq<char>|
                        done@.contains_key(key) <==> exists|j: int|
                            j < k && #[trigger] is_before(listing, j, threshold, path@)
                                && listing[j].key == key,
                decreases objects.len() - k,
            {
                let object = &objects[k];
                assert(listing[k as int] == object@);
                let ghost before = done@;
                match object.instant {
                    Some(last_modified) => {
                        if object_less(last_modified, object.key.as_str(), threshold, path) {
                            done.insert(object.key.clone(), ());
                            assert(is_before(listing, k as int, threshold, path@));
                        }
                    },
                    None => {},
                }
                proof {
                    assert forall|key: Seq<char>|
                        done@.contains_key(key) <==> exists|j: int|
                            j < k + 1 && #[trigger] is_before(listing, j, threshold, path@)
                                && listing[j].key == key by {
                        if before.contains_key(key) {
                            let j = choose|j: int|
                                j < k && #[trigger] is_before(listing, j, threshold, path@)
                                    && listing[j].key == key;
                            assert(j < k + 1 && is_before(listing, j, threshold, path@)
                                && listing[j].key == key);
                        }
                        if exists|j: int|
                            j < k + 1 && #[trigger] is_before(listing, j, threshold, path@)
                                && listing[j].key == key {
                            let j = choose|j: int|
                                j < k + 1 && #[trigger] is_before(listing, j, threshold, path@)
                                    && listing[j].key == key;
                            if j < k {
                                assert(before.contains_key(key));
                            }
                        }
                    }
                }
                k += 1;
            }
            done.insert(path.to_owned(), ());
            proof {
                assert forall|key: Seq<char>|
                    done@.dom().contains(key) <==> processed_after_seek(listing, path@).contains(
                        key,
                    ) by {
                    if exists|j: int|
                        #[trigger] is_before(listing, j, threshold, path@) && listing[j].key
                            == key {
                        let j = choose|j: int|
                            #[trigger] is_before(listing, j, threshold, path@) && listing[j].key
                                == key;
                        assert(j < objects.len());
                    }
                }
                assert(done@.dom() =~= processed_after_seek(listing, path@));
            }
        },
        None => {
            assert(done@.dom() =~= processed_after_seek(listing, path@));
        },
    }
    done
}

impl S3Scanner {
    /// The table of the scanner holds no key twice.
    pub closed spec fn wf(&self) -> bool {
        self.processed_objects.wf()
    }

    /// A scanner of the objects under `objects_prefix`. A bucket whose
    /// listing holds no object is refused.
    pub fn new(objects_prefix: String, listing: &Vec<ObjectEntry>) -> (r: Result<
        S3Scanner,
        ReadError,
    >)
        ensures
            match r {
                Ok(scanner) => {
                    &&& listing.len() > 0
                    &&& scanner.wf()
                    &&& scanner@ == S3ScannerView {
                        objects_prefix: objects_prefix@,
                        current_object: None,
                        processed_objects: Set::empty(),
                    }
                },
                Err(e) => listing.len() == 0 && e == ReadError::NoObjectsToRead,
            },
    {
        if listing.len() == 0 {
            return Err(ReadError::NoObjectsToRead);
        }
        let scanner = S3Scanner {
            objects_prefix,
            current_object: None,
            processed_objects: StringMap::new(),
        };
        assert(scanner@.processed_objects =~= Set::empty());
        Ok(scanner)
    }

    /// The prefix of the keys of the objects that the scanner picks.
    pub fn objects_prefix(&self) -> (r: &String)
        ensures
            r@ == self@.objects_prefix,
    {
        &self.objects_prefix
    }

    /// Makes `object_path` the object that is being streamed.
    pub fn stream_object_from_path(&mut self, object_path: &str)
        requires
            old(self).wf(),
        ensures
            final(self).wf(),
            final(self)@ == (S3ScannerView {
                current_object: Some(object_path@),
                ..old(self)@
            }),
    {
        self.current_object = Some(object_path.to_owned());
    }

    /// Picks the object to stream next from a listing and marks it as done
    /// with. The object that was being streamed is given up in any case.
    /// See [`next_object`].
    pub fn stream_next_object(&mut self, listing: &Vec<ObjectEntry>) -> (r: Option<String>)
        requires
            old(self).wf(),
        ensures
            final(self).wf(),
            match r {
                Some(key) => {
                    &&& exists|c: int|
                        #[trigger] object_choice(
                            old(self)@.processed_objects,
                            with_instants(objects_view(listing@)),
                            c,
                        ) && listing[c].key@ == key@
                    &&& final(self)@ == S3ScannerView {
                        current_object: Some(key@),
                        processed_objects: old(self)@.processed_objects.insert(key@),
                        ..old(self)@
                    }
                },
                None => {
                    &&& forall|i: int|
                        !is_object_candidate(
                            old(self)@.processed_objects,
                            with_instants(objects_view(listing@)),
                            i,
                        )
                    &&& final(self)@ == S3ScannerView { current_object: None, ..old(self)@ }
                },
            },
    {
        let ghost s0 = self@;
        self.current_object = None;
        let objects = read_instants(listing);
        match next_object(&objects, &self.processed_objects) {
            Some(c) => {
                let key = listing[c].key.clone();
                self.current_object = Some(key.clone());
                self.processed_objects.insert(key.clone(), ());
                proof {
                    assert(object_choice(
                        s0.processed_objects,
                        with_instants(objects_view(listing@)),
                        c as int,
                    ));
                    assert(self@.processed_objects =~= s0.processed_objects.insert(key@));
                }
                Some(key)
            },
            None => None,
        }
    }

    /// Marks as done with what a reader that stood at the object `path` had
    /// done with. See [`processed_after_seek`].
    pub fn seek_to_object(&mut self, path: &str, listing: &Vec<ObjectEntry>)
        requires
            old(self).wf(),
        ensures
            final(self).wf(),
            final(self)@ == (S3ScannerView {
                processed_objects: processed_after_seek(
                    with_instants(objects_view(listing@)),
                    path@,
                ),
                ..old(self)@
            }),
    {
        let objects = read_instants(listing);
        self.processed_objects = objects_done_at(&objects, path);
    }

    /// The key of the object that is being streamed.
    pub fn expect_current_object_path(&self) -> (r: String)
        requires
            self@.current_object is Some,
        ensures
            r@ == self@.current_object.unwrap(),
    {
        self.current_object.as_ref().unwrap().clone()
    }

    /// Whether an object is being streamed.
    pub fn has_current_object(&self) -> (r: bool)
        ensures
            r == self@.current_object is Some,
    {
        self.current_object.is_some()
    }
}

/// The position that a frontier holds for a reader of objects.
pub open spec fn object_position_in(frontier: Map<OffsetKeyView, OffsetValueView>) -> Option<
    OffsetValueView,
> {
    if frontier.contains_key(OffsetKeyView::Empty) && frontier[OffsetKeyView::Empty]
        is S3ObjectPosition {
        Some(frontier[OffsetKeyView::Empty])
    } else {
        None
    }
}

/// What a seek asks of the driver: the object to stream, and how far into
/// it reading goes on.
#[derive(Debug, PartialEq, Eq)]
pub struct ObjectPlacement {
    pub path: String,
    pub bytes_offset: u64,
}

/// What one step of a read asks of the driver and yields.
#[derive(Debug)]
pub struct ObjectStep {
    /// What the read returns. `None`: nothing is there yet; the driver waits
    /// and lists the bucket again.
    pub result: Option<ReadResult>,
    /// The key of the object that the driver is to stream from now on.
    pub stream: Option<String>,
}

/// The mathematical content of an [`ObjectStep`].
pub struct ObjectStepView {
    pub result: Option<ReadResultView>,
    pub stream: Option<Seq<char>>,
}

impl View for ObjectStep {
    type V = ObjectStepView;

    open spec fn view(&self) -> ObjectStepView {
        ObjectStepView {
            result: optional_result_view(self.result),
            stream: optional_text_view(self.stream),
        }
    }
}

/// How the bytes that a seek has skipped compare with the byte offset of
/// the frontier.
#[derive(Clone, Copy, Debug, PartialEq, Eq, Structural)]
pub enum RewindCheck {
    /// As many bytes were skipped as the offset says.
    Exact,
    /// One or two bytes more were skipped, as happens where the object
    /// lacks its last line feed. This is tolerated.
    TrailingNewline,
    /// Anything else: the object is not what it was.
    Inconsistent,
}

/// How `bytes_read` skipped bytes compare with `bytes_offset`.
pub fn rewind_check(bytes_read: u64, bytes_offset: u64) -> (r: RewindCheck)
    ensures
        r == (if bytes_read == bytes_offset {
            RewindCheck::Exact
        } else if bytes_read == bytes_offset + 1 || bytes_read == bytes_offset + 2 {
            RewindCheck::TrailingNewline
        } else {
            RewindCheck::Inconsistent
        }),
{
    if bytes_read == bytes_offset {
        RewindCheck::Exact
    } else if bytes_read > bytes_offset && bytes_read - bytes_offset <= 2 {
        RewindCheck::TrailingNewline
    } else {
        RewindCheck::Inconsistent
    }
}


/// The offset of the entry number `total` of a reader of objects, read from
/// the object in hand up to the byte `position`.
pub open spec fn object_offset(s: S3ScannerView, total: u64, position: u64) -> (
    OffsetKeyView,
    OffsetValueView,
) {
    (
        OffsetKeyView::Empty,
        OffsetValueView::S3ObjectPosition {
            total_entries_read: total,
            path: s.current_object.unwrap(),
            bytes_offset: position,
        },
    )
}

/// The state of a reader of lines or whole objects.
pub struct S3GenericReaderView {
    pub scanner: S3ScannerView,
    pub poll_new_objects: bool,
    pub read_method: ReadMethod,
    /// Whether the stream of an object is open.
    pub reader_open: bool,
    pub persistent_id: Option<u128>,
    /// Number of entries handed on so far.
    pub total_entries_read: u64,
    /// Number of bytes read from the object in hand.
    pub current_bytes_read: u64,
    /// The result that the next read returns before anything else.
    pub deferred: Option<ReadResultView>,
}

/// What a reader of objects does with the bytes of one read. Bytes that are
/// an entry become a data event with the next entry count and the count of
/// bytes read so far; after a whole object the end of the source is kept for
/// the next read. A read that is no entry yields nothing: the object is at
/// its end.
pub open spec fn object_bytes_step(r: S3GenericReaderView, line: Seq<u8>) -> (
    S3GenericReaderView,
    Option<ReadResultView>,
) {
    if r.read_method.spec_yields_entry(line.len()) {
        let total = (r.total_entries_read + 1) as u64;
        let bytes = (r.current_bytes_read + line.len()) as u64;
        (
            S3GenericReaderView {
                total_entries_read: total,
                current_bytes_read: bytes,
                reader_open: r.reader_open && r.read_method != ReadMethod::Full,
                deferred: if r.read_method == ReadMethod::Full {
                    Some(ReadResultView::FinishedSource { commit_allowed: true })
                } else {
                    r.deferred
                },
                ..r
            },
            Some(
                ReadResultView::Data(
                    ReaderContextView::RawBytes(DataEventType::Insert, line),
                    object_offset(r.scanner, total, bytes),
                ),
            ),
        )
    } else {
        (r, None)
    }
}

/// Reads the objects of a bucket line by line or whole.
#[derive(Debug)]
pub struct S3GenericReader {
    s3_scanner: S3Scanner,
    poll_new_objects: bool,
    read_method: ReadMethod,
    reader_open: bool,
    persistent_id: Option<u128>,
    total_entries_read: u64,
    current_bytes_read: u64,
    deferred_read_result: Option<ReadResult>,
}

impl View for S3GenericReader {
    type V = S3GenericReaderView;

    closed spec fn view(&self) -> S3GenericReaderView {
        S3GenericReaderView {
            scanner: self.s3_scanner@,
            poll_new_objects: self.poll_new_objects,
            read_method: self.read_method,
            reader_open: self.reader_open,
            persistent_id: self.persistent_id,
            total_entries_read: self.total_entries_read,
            current_bytes_read: self.current_bytes_read,
            deferred: optional_result_view(self.deferred_read_result),
        }
    }
}

impl S3GenericReader {
    /// How long the reader waits before it lists the bucket again, in
    /// milliseconds.
    pub fn sleep_duration() -> (millis: u64)
        ensures
            millis == 10000,
    {
        10000
    }

    /// The reader is in a state that its own operations lead to.
    pub closed spec fn wf(&self) -> bool {
        &&& self.s3_scanner.wf()
        &&& match self.deferred_read_result {
            Some(result) => result.wf(),
            None => true,
        }
    }

    /// A reader of the objects under `objects_prefix`, with nothing read
    /// yet. A bucket whose listing holds no object is refused.
    pub fn new(
        objects_prefix: String,
        listing: &Vec<ObjectEntry>,
        poll_new_objects: bool,
        persistent_id: Option<u128>,
        read_method: ReadMethod,
    ) -> (r: Result<S3GenericReader, ReadError>)
        ensures
            match r {
                Ok(reader) => {
                    &&& listing.len() > 0
                    &&& reader.wf()
                    &&& reader@ == S3GenericReaderView {
                        scanner: S3ScannerView {
                            objects_prefix: objects_prefix@,
                            current_object: None,
                            processed_objects: Set::empty(),
                        },
                        poll_new_objects,
                        read_method,
                        reader_open: false,
                        persistent_id,
                        total_entries_read: 0,
                        current_bytes_read: 0,
                        deferred: None,
                    }
                },
                Err(e) => listing.len() == 0 && e == ReadError::NoObjectsToRead,
            },
    {
        match S3Scanner::new(objects_prefix, listing) {
            Ok(s3_scanner) => Ok(
                S3GenericReader {
                    s3_scanner,
                    poll_new_objects,
                    read_method,
                    reader_open: false,
                    persistent_id,
                    total_entries_read: 0,
                    current_bytes_read: 0,
                    deferred_read_result: None,
                },
            ),
            Err(e) => Err(e),
        }
    }

    /// The prefix of the keys of the objects that the reader reads.
    pub fn objects_prefix(&self) -> (r: &String)
        ensures
            r@ == self@.scanner.objects_prefix,
    {
        self.s3_scanner.objects_prefix()
    }

    /// Puts the reader where `frontier` says it stood. A frontier without
    /// an object position leaves the reader as it is. Otherwise the scanner
    /// seeks to the object of the position, that object is streamed from its
    /// start, and the entry count is restored; the driver then skips the
    /// bytes up to the byte offset of the position.
    pub fn seek(&mut self, frontier: &OffsetAntichain, listing: &Vec<ObjectEntry>) -> (r: Option<
        ObjectPlacement,
    >)
        requires
            old(self).wf(),
            frontier.wf(),
        ensures
            final(self).wf(),
            match object_position_in(frontier@) {
                Some(position) => {
                    &&& r matches Some(placement)
                    &&& placement.path@ == position->S3ObjectPosition_path
                    &&& placement.bytes_offset == position->S3ObjectPosition_bytes_offset
                    &&& final(self)@ == S3GenericReaderView {
                        scanner: S3ScannerView {
                            current_object: Some(position->S3ObjectPosition_path),
                            processed_objects: processed_after_seek(
                                with_instants(objects_view(listing@)),
                                position->S3ObjectPosition_path,
                            ),
                            ..old(self)@.scanner
                        },
                        reader_open: true,
                        total_entries_read: position->S3ObjectPosition_total_entries_read,
                        current_bytes_read: 0,
                        ..old(self)@
                    }
                },
                None => r is None && final(self)@ == old(self)@,
            },
    {
        match frontier.get_offset(&OffsetKey::Empty) {
            Some(OffsetValue::S3ObjectPosition { total_entries_read, path, bytes_offset }) => {
                self.s3_scanner.seek_to_object(path.as_str(), listing);
                self.s3_scanner.stream_object_from_path(path.as_str());
                self.total_entries_read = *total_entries_read;
                self.current_bytes_read = 0;
                self.reader_open = true;
                Some(ObjectPlacement { path: path.clone(), bytes_offset: *bytes_offset })
            },
            _ => None,
        }
    }

    /// Whether a seek is to skip more bytes: fewer were skipped than the
    /// byte offset of the frontier says.
    pub fn wants_rewind(&self, bytes_offset: u64) -> (r: bool)
        ensures
            r == (self@.current_bytes_read < bytes_offset),
    {
        self.current_bytes_read < bytes_offset
    }

    /// Notes that a seek has skipped one read of `len` bytes, and tells
    /// whether the object may hold more: a read of no bytes is its end.
    pub fn on_rewind_bytes(&mut self, len: usize) -> (more: bool)
        requires
            old(self).wf(),
            old(self)@.current_bytes_read + len <= u64::MAX,
        ensures
            final(self).wf(),
            more == (len > 0),
            final(self)@ == (S3GenericReaderView {
                current_bytes_read: (old(self)@.current_bytes_read + len) as u64,
                ..old(self)@
            }),
    {
        self.current_bytes_read = self.current_bytes_read + len as u64;
        len > 0
    }

    /// The result that was kept for this read, if any. It is handed out once.
    pub fn take_deferred(&mut self) -> (r: Option<ReadResult>)
        requires
            old(self).wf(),
        ensures
            final(self).wf(),
            optional_result_view(r) == old(self)@.deferred,
            final(self)@ == (S3GenericReaderView { deferred: None, ..old(self)@ }),
            r matches Some(result) ==> result.wf(),
    {
        self.deferred_read_result.take()
    }

    /// Whether the stream of an object is open, so that the next step of a
    /// read is to read bytes from it.
    pub fn is_reading(&self) -> (r: bool)
        ensures
            r == self@.reader_open,
    {
        self.reader_open
    }

    /// Whether `len` bytes of a read can be taken. A read that is no entry
    /// always can: it only tells that the stream is at its end. Bytes that
    /// are an entry can be taken while an object is being streamed and the
    /// counts of entries and of bytes can still grow.
    pub fn can_take_bytes(&self, len: usize) -> (r: bool)
        ensures
            r == (!self@.read_method.spec_yields_entry(len as nat) || (
            self@.scanner.current_object is Some && self@.total_entries_read < u64::MAX
                && self@.current_bytes_read + len <= u64::MAX)),
    {
        !self.read_method.yields_entry(len) || (self.s3_scanner.has_current_object()
            && self.total_entries_read < u64::MAX && len as u64 <= u64::MAX
            - self.current_bytes_read)
    }

    /// Takes the bytes of one read from the stream. See
    /// [`object_bytes_step`]. Where nothing is returned the object is at its
    /// end, and the driver lists the bucket for the next one.
    pub fn on_bytes(&mut self, line: Vec<u8>) -> (r: Option<ReadResult>)
        requires
            old(self).wf(),
            !old(self)@.read_method.spec_yields_entry(line@.len()) || (
            old(self)@.scanner.current_object is Some && old(self)@.total_entries_read < u64::MAX
                && old(self)@.current_bytes_read + line.len() <= u64::MAX),
        ensures
            final(self).wf(),
            (final(self)@, optional_result_view(r)) == object_bytes_step(old(self)@, line@),
            r matches Some(result) ==> result.wf(),
    {
        if self.read_method.yields_entry(line.len()) {
            self.total_entries_read += 1;
            self.current_bytes_read = self.current_bytes_read + line.len() as u64;
            let offset = (
                OffsetKey::Empty,
                OffsetValue::S3ObjectPosition {
                    total_entries_read: self.total_entries_read,
                    path: self.s3_scanner.expect_current_object_path(),
                    bytes_offset: self.current_bytes_read,
                },
            );
            if self.read_method == ReadMethod::Full {
                self.deferred_read_result = Some(
                    ReadResult::FinishedSource { commit_allowed: true },
                );
                self.reader_open = false;
            }
            Some(ReadResult::Data(ReaderContext::from_raw_bytes(DataEventType::Insert, line), offset))
        } else {
            None
        }
    }

    /// Decides what a read yields once the driver has listed the bucket,
    /// because no stream is open or the open one is at its end. Where the
    /// listing holds an object to take up, that object is streamed and a new
    /// source begins. Where it holds none, a reader that polls waits and a
    /// reader that does not declares the stream finished.
    pub fn on_listing(&mut self, listing: &Vec<ObjectEntry>) -> (step: ObjectStep)
        requires
            old(self).wf(),
        ensures
            final(self).wf(),
            match step@.stream {
                Some(key) => {
                    &&& exists|c: int|
                        #[trigger] object_choice(
                            old(self)@.scanner.processed_objects,
                            with_instants(objects_view(listing@)),
                            c,
                        ) && objects_view(listing@)[c].key == key
                    &&& step@.result == Some(ReadResultView::NewSource(None))
                    &&& final(self)@ == S3GenericReaderView {
                        scanner: S3ScannerView {
                            current_object: Some(key),
                            processed_objects: old(self)@.scanner.processed_objects.insert(key),
                            ..old(self)@.scanner
                        },
                        reader_open: true,
                        current_bytes_read: 0,
                        ..old(self)@
                    }
                },
                None => {
                    &&& forall|i: int|
                        !is_object_candidate(
                            old(self)@.scanner.processed_objects,
                            with_instants(objects_view(listing@)),
                            i,
                        )
                    &&& step@.result == (if old(self)@.poll_new_objects {
                        None
                    } else {
                        Some(ReadResultView::Finished)
                    })
                    &&& final(self)@ == S3GenericReaderView {
                        scanner: S3ScannerView { current_object: None, ..old(self)@.scanner },
                        ..old(self)@
                    }
                },
            },
            final(self)@.total_entries_read == old(self)@.total_entries_read,
            position_handed_on(step@.result) is None,
            step.result matches Some(result) ==> result.wf(),
    {
        match self.s3_scanner.stream_next_object(listing) {
            Some(key) => {
                self.current_bytes_read = 0;
                self.reader_open = true;
                ObjectStep { result: Some(ReadResult::NewSource(None)), stream: Some(key) }
            },
            None => {
                let result = if self.poll_new_objects {
                    None
                } else {
                    Some(ReadResult::Finished)
                };
                ObjectStep { result, stream: None }
            },
        }
    }

    /// The kind of source, by which frontiers of the reader are merged.
    pub fn storage_type(&self) -> (r: StorageType)
        ensures
            r == StorageType::S3Lines,
    {
        StorageType::S3Lines
    }

    /// How many reads may fail in a row before the runtime gives up.
    pub fn max_allowed_consecutive_errors(&self) -> (r: usize)
        ensures
            r == 0,
    {
        0
    }

    /// The id under which the state of the reader is persisted.
    pub fn persistent_id(&self) -> (r: Option<u128>)
        ensures
            r == self@.persistent_id,
    {
        self.persistent_id
    }

    /// Sets the id under which the state of the reader is persisted.
    pub fn update_persistent_id(&mut self, persistent_id: Option<u128>)
        requires
            old(self).wf(),
        ensures
            final(self).wf(),
            final(self)@ == (S3GenericReaderView { persistent_id, ..old(self)@ }),
    {
        self.persistent_id = persistent_id;
    }
}

/// The state of a reader of delimited objects.
pub struct S3CsvReaderView {
    pub scanner: S3ScannerView,
    pub poll_new_objects: bool,
    /// Whether a parser is open on the stream of an object.
    pub reader_open: bool,
    pub persistent_id: Option<u128>,
    /// The result that the next read returns before anything else.
    pub deferred: Option<ReadResultView>,
    /// Number of records handed on so far.
    pub total_entries_read: u64,
}

/// Reads the records of the delimited objects of a bucket.
#[derive(Debug)]
pub struct S3CsvReader {
    s3_scanner: S3Scanner,
    poll_new_objects: bool,
    reader_open: bool,
    persistent_id: Option<u128>,
    deferred_read_result: Option<ReadResult>,
    total_entries_read: u64,
}

impl View for S3CsvReader {
    type V = S3CsvReaderView;

    closed spec fn view(&self) -> S3CsvReaderView {
        S3CsvReaderView {
            scanner: self.s3_scanner@,
            poll_new_objects: self.poll_new_objects,
            reader_open: self.reader_open,
            persistent_id: self.persistent_id,
            deferred: optional_result_view(self.deferred_read_result),
            total_entries_read: self.total_entries_read,
        }
    }
}

/// What a reader of delimited objects does with a record that the parser
/// delivered, the parser standing at the byte `position` after it: the
/// record becomes a data event with the next entry count.
pub open spec fn object_record_step(r: S3CsvReaderView, tokens: Seq<Seq<char>>, position: u64) -> (
    S3CsvReaderView,
    ReadResultView,
) {
    let total = (r.total_entries_read + 1) as u64;
    (
        S3CsvReaderView { total_entries_read: total, ..r },
        ReadResultView::Data(
            ReaderContextView::TokenizedEntries(DataEventType::Insert, tokens),
            object_offset(r.scanner, total, position),
        ),
    )
}

impl S3CsvReader {
    /// How long the reader waits before it lists the bucket again, in
    /// milliseconds.
    pub fn sleep_duration() -> (millis: u64)
        ensures
            millis == 10000,
    {
        10000
    }

    /// The reader is in a state that its own operations lead to.
    pub closed spec fn wf(&self) -> bool {
        &&& self.s3_scanner.wf()
        &&& match self.deferred_read_result {
            Some(result) => result.wf(),
            None => true,
        }
    }

    /// A reader of the objects under `objects_prefix`, with nothing read
    /// yet. A bucket whose listing holds no object is refused.
    pub fn new(
        objects_prefix: String,
        listing: &Vec<ObjectEntry>,
        poll_new_objects: bool,
        persistent_id: Option<u128>,
    ) -> (r: Result<S3CsvReader, ReadError>)
        ensures
            match r {
                Ok(reader) => {
                    &&& listing.len() > 0
                    &&& reader.wf()
                    &&& reader@ == S3CsvReaderView {
                        scanner: S3ScannerView {
                            objects_prefix: objects_prefix@,
                            current_object: None,
                            processed_objects: Set::empty(),
                        },
                        poll_new_objects,
                        reader_open: false,
                        persistent_id,
                        deferred: None,
                        total_entries_read: 0,
                    }
                },
                Err(e) => listing.len() == 0 && e == ReadError::NoObjectsToRead,
            },
    {
        match S3Scanner::new(objects_prefix, listing) {
            Ok(s3_scanner) => Ok(
                S3CsvReader {
                    s3_scanner,
                    poll_new_objects,
                    reader_open: false,
                    persistent_id,
                    deferred_read_result: None,
                    total_entries_read: 0,
                },
            ),
            Err(e) => Err(e),
        }
    }

    /// The prefix of the keys of the objects that the reader reads.
    pub fn objects_prefix(&self) -> (r: &String)
        ensures
            r@ == self@.scanner.objects_prefix,
    {
        self.s3_scanner.objects_prefix()
    }

    /// Begins to put the reader where `frontier` says it stood. A frontier
    /// without an object position leaves the reader as it is. Otherwise the
    /// scanner seeks to the object of the position and that object is
    /// streamed from its start. The driver then reads the header if the
    /// byte offset is not zero, skips the records up to the byte offset, and
    /// finishes the seek.
    pub fn seek(&mut self, frontier: &OffsetAntichain, listing: &Vec<ObjectEntry>) -> (r: Option<
        ObjectPlacement,
    >)
        requires
            old(self).wf(),
            frontier.wf(),
        ensures
            final(self).wf(),
            match object_position_in(frontier@) {
                Some(position) => {
                    &&& r matches Some(placement)
                    &&& placement.path@ == position->S3ObjectPosition_path
                    &&& placement.bytes_offset == position->S3ObjectPosition_bytes_offset
                    &&& final(self)@ == S3CsvReaderView {
                        scanner: S3ScannerView {
                            current_object: Some(position->S3ObjectPosition_path),
                            processed_objects: processed_after_seek(
                                with_instants(objects_view(listing@)),
                                position->S3ObjectPosition_path,
                            ),
                            ..old(self)@.scanner
                        },
                        ..old(self)@
                    }
                },
                None => r is None && final(self)@ == old(self)@,
            },
    {
        match frontier.get_offset(&OffsetKey::Empty) {
            Some(OffsetValue::S3ObjectPosition { path, bytes_offset, .. }) => {
                self.s3_scanner.seek_to_object(path.as_str(), listing);
                self.s3_scanner.stream_object_from_path(path.as_str());
                Some(ObjectPlacement { path: path.clone(), bytes_offset: *bytes_offset })
            },
            _ => None,
        }
    }

    /// Whether the parser of an object that is resumed at `bytes_offset`
    /// reads the header of the object first.
    pub fn header_precedes(bytes_offset: u64) -> (r: bool)
        ensures
            r == (bytes_offset > 0),
    {
        bytes_offset > 0
    }

    /// Takes the header that the parser read from the object to which the
    /// reader seeks. The header is kept for the next read, as a data event
    /// under the very offset of the frontier. Where the object has no
    /// header the driver gives the seek up instead.
    pub fn on_seek_header(&mut self, frontier: &OffsetAntichain, header: Vec<String>)
        requires
            old(self).wf(),
            frontier.wf(),
            object_position_in(frontier@) is Some,
        ensures
            final(self).wf(),
            final(self)@ == (S3CsvReaderView {
                deferred: Some(
                    ReadResultView::Data(
                        ReaderContextView::TokenizedEntries(
                            DataEventType::Insert,
                            texts_view(header@),
                        ),
                        (OffsetKeyView::Empty, object_position_in(frontier@).unwrap()),
                    ),
                ),
                ..old(self)@
            }),
    {
        match frontier.get_offset(&OffsetKey::Empty) {
            Some(offset_value) => {
                let offset = (OffsetKey::Empty, offset_value.clone());
                self.deferred_read_result = Some(
                    ReadResult::Data(
                        ReaderContext::from_tokenized_entries(DataEventType::Insert, header),
                        offset,
                    ),
                );
            },
            None => {},
        }
    }

    /// Whether a seek is to skip another record: the parser stands before
    /// the byte offset of the frontier.
    pub fn wants_rewind(current_offset: u64, bytes_offset: u64) -> (r: bool)
        ensures
            r == (current_offset < bytes_offset),
    {
        current_offset < bytes_offset
    }

    /// Finishes a seek: the entry count of the frontier is restored and the
    /// parser is the one that the reads use.
    pub fn finish_seek(&mut self, frontier: &OffsetAntichain)
        requires
            old(self).wf(),
            frontier.wf(),
            object_position_in(frontier@) is Some,
        ensures
            final(self).wf(),
            final(self)@ == (S3CsvReaderView {
                total_entries_read: object_position_in(
                    frontier@,
                ).unwrap()->S3ObjectPosition_total_entries_read,
                reader_open: true,
                ..old(self)@
            }),
    {
        match frontier.get_offset(&OffsetKey::Empty) {
            Some(OffsetValue::S3ObjectPosition { total_entries_read, .. }) => {
                self.total_entries_read = *total_entries_read;
                self.reader_open = true;
            },
            _ => {},
        }
    }

    /// The result that was kept for this read, if any. It is handed out once.
    pub fn take_deferred(&mut self) -> (r: Option<ReadResult>)
        requires
            old(self).wf(),
        ensures
            final(self).wf(),
            optional_result_view(r) == old(self)@.deferred,
            final(self)@ == (S3CsvReaderView { deferred: None, ..old(self)@ }),
            r matches Some(result) ==> result.wf(),
    {
        self.deferred_read_result.take()
    }

    /// Whether a parser is open, so that the next step of a read is to ask
    /// it for a record.
    pub fn is_reading(&self) -> (r: bool)
        ensures
            r == self@.reader_open,
    {
        self.reader_open
    }

    /// Whether a record can be taken: an object is being streamed, and the
    /// entry count can still grow.
    pub fn can_take_record(&self) -> (r: bool)
        ensures
            r == (self@.scanner.current_object is Some && self@.total_entries_read < u64::MAX),
    {
        self.s3_scanner.has_current_object() && self.total_entries_read < u64::MAX
    }

    /// Takes a record from the parser, which stands at the byte `position`
    /// after it. See [`object_record_step`].
    pub fn on_record(&mut self, tokens: Vec<String>, position: u64) -> (r: ReadResult)
        requires
            old(self).wf(),
            old(self)@.scanner.current_object is Some,
            old(self)@.total_entries_read < u64::MAX,
        ensures
            final(self).wf(),
            (final(self)@, r@) == object_record_step(old(self)@, texts_view(tokens@), position),
            r.wf(),
    {
        self.total_entries_read += 1;
        let offset = (
            OffsetKey::Empty,
            OffsetValue::S3ObjectPosition {
                total_entries_read: self.total_entries_read,
                path: self.s3_scanner.expect_current_object_path(),
                bytes_offset: position,
            },
        );
        ReadResult::Data(
            ReaderContext::from_tokenized_entries(DataEventType::Insert, tokens),
            offset,
        )
    }

    /// Decides what a read yields once the driver has listed the bucket,
    /// because no parser is open or the open one is at the end of its
    /// object. Where the listing holds an object to take up, that object is
    /// streamed and a new source begins. Where it holds none, a reader that
    /// polls waits and a reader that does not declares the stream finished.
    pub fn on_listing(&mut self, listing: &Vec<ObjectEntry>) -> (step: ObjectStep)
        requires
            old(self).wf(),
        ensures
            final(self).wf(),
            match step@.stream {
                Some(key) => {
                    &&& exists|c: int|
                        #[trigger] object_choice(
                            old(self)@.scanner.processed_objects,
                            with_instants(objects_view(listing@)),
                            c,
                        ) && objects_view(listing@)[c].key == key
                    &&& step@.result == Some(ReadResultView::NewSource(None))
                    &&& final(self)@ == S3CsvReaderView {
                        scanner: S3ScannerView {
                            current_object: Some(key),
                            processed_objects: old(self)@.scanner.processed_objects.insert(key),
                            ..old(self)@.scanner
                        },
                        reader_open: true,
                        ..old(self)@
                    }
                },
                None => {
                    &&& forall|i: int|
                        !is_object_candidate(
                            old(self)@.scanner.processed_objects,
                            with_instants(objects_view(listing@)),
                            i,
                        )
                    &&& step@.result == (if old(self)@.poll_new_objects {
                        None
                    } else {
                        Some(ReadResultView::Finished)
                    })
                    &&& final(self)@ == S3CsvReaderView {
                        scanner: S3ScannerView { current_object: None, ..old(self)@.scanner },
                        ..old(self)@
                    }
                },
            },
            final(self)@.total_entries_read == old(self)@.total_entries_read,
            position_handed_on(step@.result) is None,
            step.result matches Some(result) ==> result.wf(),
    {
        match self.s3_scanner.stream_next_object(listing) {
            Some(key) => {
                self.reader_open = true;
                ObjectStep { result: Some(ReadResult::NewSource(None)), stream: Some(key) }
            },
            None => {
                let result = if self.poll_new_objects {
                    None
                } else {
                    Some(ReadResult::Finished)
                };
                ObjectStep { result, stream: None }
            },
        }
    }

    /// The kind of source, by which frontiers of the reader are merged.
    pub fn storage_type(&self) -> (r: StorageType)
        ensures
            r == StorageType::S3Csv,
    {
        StorageType::S3Csv
    }

    /// How many reads may fail in a row before the runtime gives up.
    pub fn max_allowed_consecutive_errors(&self) -> (r: usize)
        ensures
            r == 0,
    {
        0
    }

    /// The id under which the state of the reader is persisted.
    pub fn persistent_id(&self) -> (r: Option<u128>)
        ensures
            r == self@.persistent_id,
    {
        self.persistent_id
    }

    /// Sets the id under which the state of the reader is persisted.
    pub fn update_persistent_id(&mut self, persistent_id: Option<u128>)
        requires
            old(self).wf(),
        ensures
            final(self).wf(),
            final(self)@ == (S3CsvReaderView { persistent_id, ..old(self)@ }),
    {
        self.persistent_id = persistent_id;
    }
}

/// Of the objects of a listing, only one is the one to take up next.
pub proof fn lemma_object_choice_unique(
    done: Set<Seq<char>>,
    listing: Seq<TimedObjectView>,
    a: int,
    b: int,
)
    requires
        object_choice(done, listing, a),
        object_choice(done, listing, b),
    ensures
        a == b,
{
    assert(is_object_candidate(done, listing, a));
    assert(is_object_candidate(done, listing, b));
}

/// Taking the bytes of a read counts the entry that it hands on, and the
/// position of that entry is a position in an object.
pub proof fn lemma_object_bytes_step_counts(r: S3GenericReaderView, line: Seq<u8>)
    requires
        r.total_entries_read < u64::MAX,
    ensures
        counts_entry(
            CountedStep {
                before: r.total_entries_read,
                after: object_bytes_step(r, line).0.total_entries_read,
                result: object_bytes_step(r, line).1,
            },
        ),
        position_handed_on(object_bytes_step(r, line).1) matches Some(handed_on)
            ==> handed_on is S3ObjectPosition,
{
}

/// Taking a record counts it, and the position of the record is a position
/// in an object.
pub proof fn lemma_object_record_step_counts(
    r: S3CsvReaderView,
    tokens: Seq<Seq<char>>,
    position: u64,
)
    requires
        r.total_entries_read < u64::MAX,
    ensures
        counts_entry(
            CountedStep {
                before: r.total_entries_read,
                after: object_record_step(r, tokens, position).0.total_entries_read,
                result: Some(object_record_step(r, tokens, position).1),
            },
        ),
        position_handed_on(Some(object_record_step(r, tokens, position).1)) matches Some(
            handed_on,
        ) && handed_on is S3ObjectPosition,
{
}

} // verus!
