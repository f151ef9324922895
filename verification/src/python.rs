//! The reader of an in-process producer, the subject. The driver calls into
//! the subject; the reader decides when to start it, what each entry it
//! hands over becomes, and when the stream is over.

use crate::offset::{
    OffsetAntichain, OffsetKey, OffsetKeyView, OffsetValue, OffsetValueView, StorageType,
};
use crate::reader::{
    counts_entry, position_handed_on, CountedStep, ReadError, ReadResult, ReadResultView,
    ReaderContext, ReaderContextView,
};
use crate::value::{values_view, DataEventType, Value, ValueView, ValuesMap};
use vstd::prelude::*;

verus! {

/// The value of the special field by which a subject announces the end of
/// its stream.
pub open spec fn finish_literal() -> Seq<char> {
    "*FINISH*"@
}

/// What the reader is to do next.
#[derive(Clone, Copy, Debug, PartialEq, Eq, Structural)]
pub enum PythonStep {
    /// The subject is to be started before anything is read.
    Start,
    /// The stream is over: the read returns that it is finished.
    Finished,
    /// The subject is to be asked for its next entry.
    Read,
}

/// The state of a reader of a subject.
pub struct PythonReaderView {
    pub persistent_id: Option<u128>,
    /// Whether the subject may hand over entries other than insertions.
    pub deletions_enabled: bool,
    /// Number of entries handed on so far.
    pub total_entries_read: u64,
    pub is_initialized: bool,
    pub is_finished: bool,
}

/// The key of an entry as events carry it.
pub open spec fn entry_key(key: Option<Value>) -> Option<Seq<ValueView>> {
    match key {
        Some(k) => Some(seq![k@]),
        None => None,
    }
}

/// The record is the one by which a subject announces the end of its
/// stream: its only field is `_pw_special`, and that holds `*FINISH*`.
pub open spec fn announces_end(values: Map<Seq<char>, ValueView>) -> bool {
    &&& values.dom() == set![crate::value::special_field_name()]
    &&& values[crate::value::special_field_name()] == ValueView::String(finish_literal())
}

/// Makes the reader of a subject.
#[derive(Debug)]
pub struct PythonReaderBuilder {
    is_internal: bool,
    deletions_enabled: bool,
    persistent_id: Option<u128>,
}

impl PythonReaderBuilder {
    /// The builder of a reader of a subject that is internal or not and
    /// that may or may not hand over entries other than insertions.
    pub fn new(is_internal: bool, deletions_enabled: bool, persistent_id: Option<u128>) -> (r: Self)
        ensures
            r.spec_is_internal() == is_internal,
            r.spec_deletions_enabled() == deletions_enabled,
            r.spec_persistent_id() == persistent_id,
    {
        PythonReaderBuilder { is_internal, deletions_enabled, persistent_id }
    }

    /// Whether the subject is internal to the runtime.
    pub closed spec fn spec_is_internal(&self) -> bool {
        self.is_internal
    }

    /// Whether the subject may hand over entries other than insertions.
    pub closed spec fn spec_deletions_enabled(&self) -> bool {
        self.deletions_enabled
    }

    /// The id under which the state of the reader is to be persisted.
    pub closed spec fn spec_persistent_id(&self) -> Option<u128> {
        self.persistent_id
    }

    /// The reader, with nothing read and the subject not started.
    pub fn build(self) -> (r: PythonReader)
        ensures
            r@ == (PythonReaderView {
                persistent_id: self.spec_persistent_id(),
                deletions_enabled: self.spec_deletions_enabled(),
                total_entries_read: 0,
                is_initialized: false,
                is_finished: false,
            }),
    {
        PythonReader {
            deletions_enabled: self.deletions_enabled,
            persistent_id: self.persistent_id,
            total_entries_read: 0,
            is_initialized: false,
            is_finished: false,
        }
    }

    /// Whether the subject is internal to the runtime.
    pub fn is_internal(&self) -> (r: bool)
        ensures
            r == self.spec_is_internal(),
    {
        self.is_internal
    }

    /// The id under which the state of the reader is to be persisted.
    pub fn persistent_id(&self) -> (r: Option<u128>)
        ensures
            r == self.spec_persistent_id(),
    {
        self.persistent_id
    }

    /// Sets the id under which the state of the reader is to be persisted.
    pub fn update_persistent_id(&mut self, persistent_id: Option<u128>)
        ensures
            final(self).spec_persistent_id() == persistent_id,
            final(self).spec_is_internal() == old(self).spec_is_internal(),
            final(self).spec_deletions_enabled() == old(self).spec_deletions_enabled(),
    {
        self.persistent_id = persistent_id;
    }

    /// The kind of source, by which frontiers of the reader are merged.
    pub fn storage_type(&self) -> (r: StorageType)
        ensures
            r == StorageType::Python,
    {
        StorageType::Python
    }
}

/// Reads the entries that a subject hands over.
#[derive(Debug)]
pub struct PythonReader {
    deletions_enabled: bool,
    persistent_id: Option<u128>,
    total_entries_read: u64,
    is_initialized: bool,
    is_finished: bool,
}

impl View for PythonReader {
    type V = PythonReaderView;

    closed spec fn view(&self) -> PythonReaderView {
        PythonReaderView {
            persistent_id: self.persistent_id,
            deletions_enabled: self.deletions_enabled,
            total_entries_read: self.total_entries_read,
            is_initialized: self.is_initialized,
            is_finished: self.is_finished,
        }
    }
}

/// The sequential id that a frontier holds for a reader of a subject.
pub open spec fn sequential_id_in(frontier: Map<OffsetKeyView, OffsetValueView>) -> Option<u64> {
    if frontier.contains_key(OffsetKeyView::Empty) && frontier[OffsetKeyView::Empty]
        is PythonEntrySequentialId {
        Some(frontier[OffsetKeyView::Empty]->PythonEntrySequentialId_0)
    } else {
        None
    }
}

/// What the reader makes of an entry. An entry other than an insertion is
/// refused where the subject has not enabled deletions. The record that
/// announces the end finishes the stream. Any other entry is handed on
/// under the next sequential id.
pub open spec fn entry_step(
    r: PythonReaderView,
    event: DataEventType,
    key: Option<Value>,
    values: Map<Seq<char>, ValueView>,
) -> Option<(PythonReaderView, ReadResultView)> {
    if event != DataEventType::Insert && !r.deletions_enabled {
        None
    } else if announces_end(values) {
        Some((PythonReaderView { is_finished: true, ..r }, ReadResultView::Finished))
    } else {
        let total = (r.total_entries_read + 1) as u64;
        Some(
            (
                PythonReaderView { total_entries_read: total, ..r },
                ReadResultView::Data(
                    ReaderContextView::Diff(event, entry_key(key), values),
                    (OffsetKeyView::Empty, OffsetValueView::PythonEntrySequentialId(total)),
                ),
            ),
        )
    }
}

/// Whether an entry is counted: it is unless it is refused or announces the
/// end.
pub open spec fn is_counted(
    r: PythonReaderView,
    event: DataEventType,
    values: Map<Seq<char>, ValueView>,
) -> bool {
    (event == DataEventType::Insert || r.deletions_enabled) && !announces_end(values)
}

impl PythonReader {
    /// Puts the reader where `frontier` says it stood: the count of entries
    /// is the sequential id of the frontier. A frontier without such an id
    /// leaves the reader as it is.
    pub fn seek(&mut self, frontier: &OffsetAntichain)
        requires
            frontier.wf(),
        ensures
            final(self)@ == (PythonReaderView {
                total_entries_read: match sequential_id_in(frontier@) {
                    Some(id) => id,
                    None => old(self)@.total_entries_read,
                },
                ..old(self)@
            }),
    {
        match frontier.get_offset(&OffsetKey::Empty) {
            Some(OffsetValue::PythonEntrySequentialId(offset_value)) => {
                self.total_entries_read = *offset_value;
            },
            _ => {},
        }
    }

    /// What the reader is to do next: start the subject if that has not
    /// happened, return that the stream is finished if it is, and ask the
    /// subject for an entry otherwise.
    pub fn next_step(&self) -> (r: PythonStep)
        ensures
            r == (if !self@.is_initialized {
                PythonStep::Start
            } else if self@.is_finished {
                PythonStep::Finished
            } else {
                PythonStep::Read
            }),
    {
        if !self.is_initialized {
            PythonStep::Start
        } else if self.is_finished {
            PythonStep::Finished
        } else {
            PythonStep::Read
        }
    }

    /// Notes that the subject has been started.
    pub fn on_started(&mut self)
        ensures
            final(self)@ == (PythonReaderView { is_initialized: true, ..old(self)@ }),
    {
        self.is_initialized = true;
    }

    /// Whether an entry can be taken: it can unless it is to be counted and
    /// the count of entries cannot grow any more.
    pub fn can_take_entry(&self, event: DataEventType, values: &ValuesMap) -> (r: bool)
        requires
            values.wf(),
        ensures
            r == (self@.total_entries_read < u64::MAX || !is_counted(self@, event, values@)),
    {
        self.total_entries_read < u64::MAX || (event != DataEventType::Insert
            && !self.deletions_enabled) || values.is_special("*FINISH*")
    }

    /// Takes an entry from the subject. See [`entry_step`]. Where the
    /// result is that the stream is finished, the driver ends the subject.
    pub fn on_entry(
        &mut self,
        event: DataEventType,
        key: Option<Value>,
        values: ValuesMap,
    ) -> (r: Result<ReadResult, ReadError>)
        requires
            values.wf(),
            old(self)@.total_entries_read < u64::MAX || !is_counted(old(self)@, event, values@),
        ensures
            match r {
                Ok(result) => {
                    &&& entry_step(old(self)@, event, key, values@) == Some((final(self)@, result@))
                    &&& result.wf()
                },
                Err(e) => {
                    &&& entry_step(old(self)@, event, key, values@) is None
                    &&& final(self)@ == old(self)@
                    &&& e is Py
                },
            },
    {
        if event != DataEventType::Insert && !self.deletions_enabled {
            return Err(
                ReadError::Py(
                    "Trying to modify a row in the Python connector but deletions_enabled is set to False.".to_owned(),
                ),
            );
        }
        if values.is_special("*FINISH*") {
            self.is_finished = true;
            Ok(ReadResult::Finished)
        } else {
            self.total_entries_read += 1;
            let offset = (
                OffsetKey::Empty,
                OffsetValue::PythonEntrySequentialId(self.total_entries_read),
            );
            let key = match key {
                Some(k) => {
                    let ghost content = k@;
                    let mut items: Vec<Value> = Vec::new();
                    items.push(k);
                    assert(values_view(items@) =~= seq![content]);
                    Some(items)
                },
                None => None,
            };
            Ok(ReadResult::Data(ReaderContext::Diff((event, key, values)), offset))
        }
    }

    /// The id under which the state of the reader is persisted.
    pub fn persistent_id(&self) -> (r: Option<u128>)
        ensures
            r == self@.persistent_id,
    {
        self.persistent_id
    }

    /// Sets the id under which the state of the reader is persisted.
    pub fn update_persistent_id(&mut self, persistent_id: Option<u128>)
        ensures
            final(self)@ == (PythonReaderView { persistent_id, ..old(self)@ }),
    {
        self.persistent_id = persistent_id;
    }

    /// The kind of source, by which frontiers of the reader are merged.
    pub fn storage_type(&self) -> (r: StorageType)
        ensures
            r == StorageType::Python,
    {
        StorageType::Python
    }

    /// How many reads may fail in a row before the runtime gives up.
    pub fn max_allowed_consecutive_errors(&self) -> (r: usize)
        ensures
            r == 0,
    {
        0
    }
}

/// Taking an entry counts it, and the position of the entry is a sequential
/// id. The record that announces the end is not counted.
pub proof fn lemma_entry_step_counts(
    r: PythonReaderView,
    event: DataEventType,
    key: Option<Value>,
    values: Map<Seq<char>, ValueView>,
)
    requires
        r.total_entries_read < u64::MAX,
        entry_step(r, event, key, values) is Some,
    ensures
        counts_entry(
            CountedStep {
                before: r.total_entries_read,
                after: entry_step(r, event, key, values).unwrap().0.total_entries_read,
                result: Some(entry_step(r, event, key, values).unwrap().1),
            },
        ),
        position_handed_on(Some(entry_step(r, event, key, values).unwrap().1)) matches Some(
            handed_on,
        ) ==> handed_on is PythonEntrySequentialId,
{
}

/// After a seek to a frontier, the first entry that is handed on has the
/// sequential id that follows the one of the frontier.
pub proof fn lemma_seek_resumes_after_frontier(
    r: PythonReaderView,
    id: u64,
    event: DataEventType,
    key: Option<Value>,
    values: Map<Seq<char>, ValueView>,
)
    requires
        id < u64::MAX,
        entry_step(PythonReaderView { total_entries_read: id, ..r }, event, key, values) matches Some(
            step,
        ) && step.1 is Data,
    ensures
        entry_step(
            PythonReaderView { total_entries_read: id, ..r },
            event,
            key,
            values,
        ).unwrap().1->Data_1.1 == OffsetValueView::PythonEntrySequentialId((id + 1) as u64),
{
}

} // verus!
