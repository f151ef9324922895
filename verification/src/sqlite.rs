//! The reader of an embedded SQL table. The table keeps no history, so the
//! reader remembers the rows it has seen and reports how each reading of the
//! table differs from the one before.

use crate::bindings::str_from_utf8;
use crate::offset::{empty_offset, OffsetKeyView, OffsetValueView, StorageType};
use crate::reader::{
    results_view, ReadError, ReadResult, ReadResultView, ReaderContext, ReaderContextView,
};
use crate::text::{join_text, texts_view};
use crate::value::{DataEventType, Value, ValueView, ValuesMap};
use std::collections::HashMap;
use std::collections::VecDeque;
use vstd::prelude::*;
use vstd::string::*;
use vstd::utf8::{decode_utf8, valid_utf8};

verus! {

broadcast use vstd::std_specs::hash::group_hash_axioms;

/// One field of a row as the database hands it out. A real number is
/// carried as its IEEE-754 binary64 bit pattern.
#[derive(Debug, PartialEq, Eq)]
pub enum SqliteCell {
    Null,
    Integer(i64),
    Real(u64),
    Text(Vec<u8>),
    Blob(Vec<u8>),
}

/// The value that a field of a row stands for. Text that is not UTF-8 stands
/// for none.
pub open spec fn cell_value(cell: SqliteCell) -> Option<ValueView> {
    match cell {
        SqliteCell::Null => Some(ValueView::Null),
        SqliteCell::Integer(i) => Some(ValueView::Int(i)),
        SqliteCell::Real(bits) => Some(ValueView::Float(bits)),
        SqliteCell::Text(bytes) => if valid_utf8(bytes@) {
            Some(ValueView::String(decode_utf8(bytes@)))
        } else {
            None
        },
        SqliteCell::Blob(bytes) => Some(ValueView::Bytes(bytes@)),
    }
}

impl Value {
    /// Turns a field of a row into a value. Only text that is not UTF-8 is
    /// refused.
    pub fn column_result(cell: SqliteCell) -> (r: Result<Value, ReadError>)
        ensures
            match r {
                Ok(value) => cell_value(cell) == Some(value@),
                Err(e) => cell_value(cell) is None && e is Sqlite,
            },
    {
        match cell {
            SqliteCell::Null => Ok(Value::Null),
            SqliteCell::Integer(i) => Ok(Value::Int(i)),
            SqliteCell::Real(bits) => Ok(Value::Float(bits)),
            SqliteCell::Text(bytes) => match str_from_utf8(bytes.as_slice()) {
                Some(text) => {
                    proof {
                        vstd::utf8::encode_utf8_decode_utf8(text@);
                    }
                    Ok(Value::String(text.to_owned()))
                },
                None => Err(ReadError::Sqlite("text column holds invalid UTF-8".to_owned())),
            },
            SqliteCell::Blob(bytes) => Ok(Value::Bytes(bytes)),
        }
    }
}

/// The record that the first `n` fields of a row make under the names of
/// their columns. Where a name occurs twice the later field counts.
pub open spec fn record_of(names: Seq<Seq<char>>, cells: Seq<SqliteCell>, n: int) -> Map<
    Seq<char>,
    ValueView,
>
    decreases n,
{
    if n <= 0 {
        Map::empty()
    } else {
        record_of(names, cells, n - 1).insert(names[n - 1], cell_value(cells[n - 1]).unwrap())
    }
}

/// Makes the record of a row from its fields, one for each column in order.
/// A row with a field that has no value is refused.
pub fn row_values(column_names: &Vec<String>, cells: Vec<SqliteCell>) -> (r: Result<
    ValuesMap,
    ReadError,
>)
    requires
        cells.len() == column_names.len(),
    ensures
        match r {
            Ok(values) => {
                &&& values.wf()
                &&& forall|i: int| 0 <= i < cells.len() ==> cell_value(#[trigger] cells[i]) is Some
                &&& values@ == record_of(texts_view(column_names@), cells@, cells.len() as int)
            },
            Err(e) => e is Sqlite && exists|i: int|
                0 <= i < cells.len() && cell_value(#[trigger] cells[i]) is None,
        },
{
    let mut values = ValuesMap::new();
    let mut rest = cells;
    let ghost names = texts_view(column_names@);
    let mut i: usize = 0;
    while rest.len() > 0
        invariant
            i + rest.len() == column_names.len(),
            cells.len() == column_names.len(),
            rest@ == cells@.subrange(i as int, cells.len() as int),
            names == texts_view(column_names@),
            values.wf(),
            forall|j: int| 0 <= j < i ==> cell_value(#[trigger] cells[j]) is Some,
            values@ == record_of(names, cells@, i as int),
        decreases rest.len(),
    {
        let cell = rest.remove(0);
        assert(cell == cells[i as int]);
        match Value::column_result(cell) {
            Ok(value) => {
                values.insert(column_names[i].clone(), value);
            },
            Err(e) => {
                assert(cell_value(cells[i as int]) is None);
                return Err(e);
            },
        }
        assert(rest@ =~= cells@.subrange(i + 1, cells.len() as int));
        i += 1;
    }
    Ok(values)
}

/// A record: the content of the values of a row under their names.
pub type RecordView = Map<Seq<char>, ValueView>;

/// What the reader remembers of the table: the ids of the rows in the order
/// in which it first saw them, and the record of each.
pub struct TableView {
    pub order: Seq<i64>,
    pub records: Map<i64, RecordView>,
}

/// The event that reports the row `rowid` as gone; it carries the record
/// that the row had.
pub open spec fn delete_event(rowid: i64, values: RecordView) -> ReadResultView {
    ReadResultView::Data(
        ReaderContextView::Diff(DataEventType::Delete, Some(seq![ValueView::Int(rowid)]), values),
        (OffsetKeyView::Empty, OffsetValueView::Empty),
    )
}

/// The event that reports the row `rowid` as new, with its record.
pub open spec fn insert_event(rowid: i64, values: RecordView) -> ReadResultView {
    ReadResultView::Data(
        ReaderContextView::Diff(DataEventType::Insert, Some(seq![ValueView::Int(rowid)]), values),
        (OffsetKeyView::Empty, OffsetValueView::Empty),
    )
}

/// The events that a row of a reading gives rise to: an insertion for a row
/// that is not remembered, nothing for a row that is remembered as it is,
/// and the deletion of the remembered record followed by the insertion of
/// the new one for a row that has changed.
pub open spec fn row_events(t: TableView, rowid: i64, values: RecordView) -> Seq<ReadResultView> {
    if t.records.contains_key(rowid) {
        if t.records[rowid] == values {
            seq![]
        } else {
            seq![delete_event(rowid, t.records[rowid]), insert_event(rowid, values)]
        }
    } else {
        seq![insert_event(rowid, values)]
    }
}

/// What is remembered once a row of a reading has been looked at.
pub open spec fn with_row(t: TableView, rowid: i64, values: RecordView) -> TableView {
    TableView {
        order: if t.records.contains_key(rowid) {
            t.order
        } else {
            t.order.push(rowid)
        },
        records: t.records.insert(rowid, values),
    }
}

/// What is remembered, and which events have arisen, once the first `n` rows
/// of a reading have been looked at in order.
pub open spec fn rows_applied(t: TableView, rows: Seq<(i64, RecordView)>, n: int) -> (
    TableView,
    Seq<ReadResultView>,
)
    decreases n,
{
    if n <= 0 {
        (t, seq![])
    } else {
        let (before, events) = rows_applied(t, rows, n - 1);
        (
            with_row(before, rows[n - 1].0, rows[n - 1].1),
            events + row_events(before, rows[n - 1].0, rows[n - 1].1),
        )
    }
}

/// The reading holds a row with the id `rowid`.
pub open spec fn is_present(rows: Seq<(i64, RecordView)>, rowid: i64) -> bool {
    exists|i: int| 0 <= i < rows.len() && (#[trigger] rows[i]).0 == rowid
}

/// What is left of the first `n` remembered rows, and which events have
/// arisen, once every row that the reading does not hold is forgotten: each
/// such row is reported as gone, in the order in which the rows were first
/// seen.
pub open spec fn absent_removed(t: TableView, rows: Seq<(i64, RecordView)>, n: int) -> (
    TableView,
    Seq<ReadResultView>,
)
    decreases n,
{
    if n <= 0 {
        (TableView { order: seq![], records: t.records }, seq![])
    } else {
        let (before, events) = absent_removed(t, rows, n - 1);
        let rowid = t.order[n - 1];
        if is_present(rows, rowid) {
            (TableView { order: before.order.push(rowid), records: before.records }, events)
        } else {
            (
                TableView { order: before.order, records: before.records.remove(rowid) },
                events.push(delete_event(rowid, t.records[rowid])),
            )
        }
    }
}

/// One reading of the table: what is remembered afterwards, and the queue of
/// results afterwards. The changes of the rows are queued in the order of
/// the reading, then the rows that are gone; and a queue that holds anything
/// is closed by the end of the source, with commits allowed.
pub open spec fn table_loaded(
    t: TableView,
    queue: Seq<ReadResultView>,
    rows: Seq<(i64, RecordView)>,
) -> (TableView, Seq<ReadResultView>) {
    let (applied, changes) = rows_applied(t, rows, rows.len() as int);
    let (kept, removals) = absent_removed(applied, rows, applied.order.len() as int);
    let events = queue + changes + removals;
    (
        kept,
        if events.len() > 0 {
            events.push(ReadResultView::FinishedSource { commit_allowed: true })
        } else {
            events
        },
    )
}

/// The content of the rows of a reading.
pub open spec fn rows_view(rows: Seq<(i64, ValuesMap)>) -> Seq<(i64, RecordView)> {
    Seq::new(rows.len(), |i: int| (rows[i].0, rows[i].1@))
}

/// The content of the remembered records.
pub open spec fn records_view(records: Map<i64, ValuesMap>) -> Map<i64, RecordView> {
    records.map_values(|v: ValuesMap| v@)
}

/// The state of a reader of a table.
pub struct SqliteReaderView {
    pub table_name: Seq<char>,
    pub column_names: Seq<Seq<char>>,
    /// The data version of the last reading.
    pub last_saved_data_version: Option<i64>,
    pub table: TableView,
    /// The results that the next reads return, first in, first out.
    pub queued_updates: Seq<ReadResultView>,
}

/// The names of the first `n` columns, separated by commas.
pub open spec fn joined_columns(names: Seq<Seq<char>>, n: int) -> Seq<char>
    decreases n,
{
    if n <= 0 {
        seq![]
    } else if n == 1 {
        names[0]
    } else {
        joined_columns(names, n - 1) + seq![','] + names[n - 1]
    }
}

/// The query that reads the table: the columns in order, then the row id.
pub open spec fn select_query(names: Seq<Seq<char>>, table_name: Seq<char>) -> Seq<char> {
    "SELECT "@ + joined_columns(names, names.len() as int) + ",_rowid_ FROM "@ + table_name
}

/// Reads a table again and again and reports the differences.
#[derive(Debug)]
pub struct SqliteReader {
    table_name: String,
    column_names: Vec<String>,
    last_saved_data_version: Option<i64>,
    stored_state: HashMap<i64, ValuesMap>,
    stored_order: Vec<i64>,
    queued_updates: VecDeque<ReadResult>,
}

impl View for SqliteReader {
    type V = SqliteReaderView;

    closed spec fn view(&self) -> SqliteReaderView {
        SqliteReaderView {
            table_name: self.table_name@,
            column_names: texts_view(self.column_names@),
            last_saved_data_version: self.last_saved_data_version,
            table: TableView {
                order: self.stored_order@,
                records: records_view(self.stored_state@),
            },
            queued_updates: results_view(self.queued_updates@),
        }
    }
}

fn holds_row(rows: &Vec<(i64, ValuesMap)>, rowid: i64) -> (r: bool)
    ensures
        r == is_present(rows_view(rows@), rowid),
{
    let mut i: usize = 0;
    while i < rows.len()
        invariant
            i <= rows.len(),
            forall|j: int| 0 <= j < i ==> (#[trigger] rows_view(rows@)[j]).0 != rowid,
        decreases rows.len() - i,
    {
        if rows[i].0 == rowid {
            assert(rows_view(rows@)[i as int].0 == rowid);
            return true;
        }
        i += 1;
    }
    false
}

fn diff_result(event: DataEventType, rowid: i64, values: ValuesMap) -> (r: ReadResult)
    requires
        values.wf(),
    ensures
        r.wf(),
        r@ == ReadResultView::Data(
            ReaderContextView::Diff(event, Some(seq![ValueView::Int(rowid)]), values@),
            (OffsetKeyView::Empty, OffsetValueView::Empty),
        ),
{
    let mut key: Vec<Value> = Vec::new();
    key.push(Value::Int(rowid));
    assert(crate::value::values_view(key@) =~= seq![ValueView::Int(rowid)]);
    ReadResult::Data(ReaderContext::Diff((event, Some(key), values)), empty_offset())
}

/// How membership in the parts of a list without repetitions changes when
/// the boundary between the parts moves over one element.
proof fn lemma_order_step(order: Seq<i64>, k: int)
    requires
        0 <= k < order.len(),
        order.no_duplicates(),
    ensures
        !order.subrange(0, k).contains(order[k]),
        !order.subrange(k + 1, order.len() as int).contains(order[k]),
        forall|id: i64|
            order.subrange(k, order.len() as int).contains(id) <==> id == order[k]
                || order.subrange(k + 1, order.len() as int).contains(id),
        forall|id: i64|
            order.subrange(0, k + 1).contains(id) <==> id == order[k] || order.subrange(
                0,
                k,
            ).contains(id),
{
    let tail = order.subrange(k, order.len() as int);
    let rest = order.subrange(k + 1, order.len() as int);
    let head = order.subrange(0, k);
    let more = order.subrange(0, k + 1);
    if head.contains(order[k]) {
        let j = head.index_of(order[k]);
        assert(order[j] == order[k]);
    }
    if rest.contains(order[k]) {
        let j = rest.index_of(order[k]);
        assert(order[j + k + 1] == order[k]);
    }
    assert forall|id: i64| tail.contains(id) <==> id == order[k] || rest.contains(id) by {
        if tail.contains(id) {
            let j = tail.index_of(id);
            if j > 0 {
                assert(rest[j - 1] == id);
            }
        }
        if id == order[k] {
            assert(tail[0] == id);
        }
        if rest.contains(id) {
            let j = rest.index_of(id);
            assert(tail[j + 1] == id);
        }
    }
    assert forall|id: i64| more.contains(id) <==> id == order[k] || head.contains(id) by {
        if more.contains(id) {
            let j = more.index_of(id);
            if j < k {
                assert(head[j] == id);
            }
        }
        if id == order[k] {
            assert(more[k] == id);
        }
        if head.contains(id) {
            let j = head.index_of(id);
            assert(more[j] == id);
        }
    }
}

impl SqliteReader {
    /// The reader is in a state that its own operations lead to: it
    /// remembers every row once, and its records are well formed.
    pub closed spec fn wf(&self) -> bool {
        &&& self.stored_order@.no_duplicates()
        &&& forall|rowid: i64|
            self.stored_order@.contains(rowid) <==> self.stored_state@.contains_key(rowid)
        &&& forall|rowid: i64|
            self.stored_state@.contains_key(rowid) ==> (#[trigger] self.stored_state@[rowid]).wf()
        &&& forall|i: int|
            0 <= i < self.queued_updates@.len() ==> (#[trigger] self.queued_updates@[i]).wf()
    }

    /// A reader of the columns `column_names` of the table `table_name`.
    pub fn new(table_name: String, column_names: Vec<String>) -> (r: Self)
        ensures
            r.wf(),
            r@ == (SqliteReaderView {
                table_name: table_name@,
                column_names: texts_view(column_names@),
                last_saved_data_version: None,
                table: TableView { order: seq![], records: Map::empty() },
                queued_updates: seq![],
            }),
    {
        let r = SqliteReader {
            table_name,
            column_names,
            last_saved_data_version: None,
            stored_state: HashMap::new(),
            stored_order: Vec::new(),
            queued_updates: VecDeque::new(),
        };
        proof {
            assert(r@.table.records =~= Map::empty());
            assert(r@.table.order =~= seq![]);
            assert(r@.queued_updates =~= seq![]);
        }
        r
    }

    /// The names of the columns that the reader reads.
    pub fn column_names(&self) -> (r: &Vec<String>)
        ensures
            texts_view(r@) == self@.column_names,
    {
        &self.column_names
    }

    /// The query that reads the table.
    pub fn query(&self) -> (r: String)
        ensures
            r@ == select_query(self@.column_names, self@.table_name),
    {
        let mut columns = String::new();
        let mut i: usize = 0;
        while i < self.column_names.len()
            invariant
                i <= self.column_names.len(),
                columns@ == joined_columns(texts_view(self.column_names@), i as int),
            decreases self.column_names.len() - i,
        {
            if i > 0 {
                proof {
                    reveal_strlit(",");
                }
                columns.append(",");
            }
            columns.append(self.column_names[i].as_str());
            proof {
                let names = texts_view(self.column_names@);
                if i == 0 {
                    assert(columns@ =~= names[0]);
                } else {
                    assert(columns@ =~= joined_columns(names, i as int) + seq![','] + names[i as int]);
                }
            }
            i += 1;
        }
        let head = join_text("SELECT ", columns.as_str());
        let body = join_text(head.as_str(), ",_rowid_ FROM ");
        join_text(body.as_str(), self.table_name.as_str())
    }

    fn apply_row(&mut self, rowid: i64, values: &ValuesMap)
        requires
            old(self).wf(),
            values.wf(),
        ensures
            final(self).wf(),
            final(self)@ == (SqliteReaderView {
                table: with_row(old(self)@.table, rowid, values@),
                queued_updates: old(self)@.queued_updates + row_events(
                    old(self)@.table,
                    rowid,
                    values@,
                ),
                ..old(self)@
            }),
    {
        let ghost before = self@;
        let known = match self.stored_state.get(&rowid) {
            Some(current) => Some(current.same(values)),
            None => None,
        };
        match known {
            Some(true) => {
                proof {
                    assert(self@.table.records =~= before.table.records.insert(rowid, values@));
                    assert(self@.queued_updates =~= before.queued_updates + row_events(
                        before.table,
                        rowid,
                        values@,
                    ));
                }
            },
            Some(false) => {
                let copy = values.clone();
                let previous = self.stored_state.insert(rowid, copy);
                match previous {
                    Some(old_values) => {
                        let deletion = diff_result(DataEventType::Delete, rowid, old_values);
                        self.queued_updates.push_back(deletion);
                    },
                    None => {},
                }
                let insertion = diff_result(DataEventType::Insert, rowid, values.clone());
                self.queued_updates.push_back(insertion);
                proof {
                    assert(self@.table.records =~= before.table.records.insert(rowid, values@));
                    assert(self@.queued_updates =~= before.queued_updates + row_events(
                        before.table,
                        rowid,
                        values@,
                    ));
                    assert forall|i: int| 0 <= i < self.queued_updates@.len() implies (
                    #[trigger] self.queued_updates@[i]).wf() by {
                        if i < old(self).queued_updates@.len() {
                            assert(self.queued_updates@[i] == old(self).queued_updates@[i]);
                        }
                    }
                }
            },
            None => {
                let insertion = diff_result(DataEventType::Insert, rowid, values.clone());
                self.queued_updates.push_back(insertion);
                let copy = values.clone();
                self.stored_state.insert(rowid, copy);
                self.stored_order.push(rowid);
                proof {
                    assert(self@.table.records =~= before.table.records.insert(rowid, values@));
                    assert(self@.queued_updates =~= before.queued_updates + row_events(
                        before.table,
                        rowid,
                        values@,
                    ));
                    assert forall|id: i64|
                        self.stored_order@.contains(id) <==> self.stored_state@.contains_key(
                            id,
                        ) by {
                        if old(self).stored_order@.contains(id) {
                            let j = old(self).stored_order@.index_of(id);
                            assert(self.stored_order@[j] == id);
                        }
                        if id == rowid {
                            assert(self.stored_order@[self.stored_order@.len() - 1] == id);
                        }
                        if self.stored_order@.contains(id) && id != rowid {
                            let j = self.stored_order@.index_of(id);
                            assert(old(self).stored_order@[j] == id);
                        }
                    }
                    assert forall|i: int| 0 <= i < self.queued_updates@.len() implies (
                    #[trigger] self.queued_updates@[i]).wf() by {
                        if i < old(self).queued_updates@.len() {
                            assert(self.queued_updates@[i] == old(self).queued_updates@[i]);
                        }
                    }
                    assert(!old(self).stored_order@.contains(rowid));
                }
            },
        }
    }

    /// Takes one reading of the table, the rows in the order in which the
    /// database delivered them. See [`table_loaded`].
    pub fn load_table(&mut self, rows: &Vec<(i64, ValuesMap)>)
        requires
            old(self).wf(),
            forall|i: int| 0 <= i < rows.len() ==> (#[trigger] rows[i]).1.wf(),
        ensures
            final(self).wf(),
            final(self)@ == (SqliteReaderView {
                table: table_loaded(
                    old(self)@.table,
                    old(self)@.queued_updates,
                    rows_view(rows@),
                ).0,
                queued_updates: table_loaded(
                    old(self)@.table,
                    old(self)@.queued_updates,
                    rows_view(rows@),
                ).1,
                ..old(self)@
            }),
    {
        let ghost start = self@;
        let ghost seen = rows_view(rows@);
        let mut i: usize = 0;
        while i < rows.len()
            invariant
                i <= rows.len(),
                self.wf(),
                start == old(self)@,
                seen == rows_view(rows@),
                forall|j: int| 0 <= j < rows.len() ==> (#[trigger] rows[j]).1.wf(),
                self@ == (SqliteReaderView {
                    table: rows_applied(start.table, seen, i as int).0,
                    queued_updates: start.queued_updates + rows_applied(
                        start.table,
                        seen,
                        i as int,
                    ).1,
                    ..start
                }),
            decreases rows.len() - i,
        {
            assert(seen[i as int] == (rows[i as int].0, rows[i as int].1@));
            let ghost before = self@;
            self.apply_row(rows[i].0, &rows[i].1);
            proof {
                let (table, events) = rows_applied(start.table, seen, i as int);
                assert(self@.queued_updates =~= start.queued_updates + rows_applied(
                    start.table,
                    seen,
                    i + 1,
                ).1);
            }
            i += 1;
        }
        let ghost applied = self@;
        let ghost order = applied.table.order;
        let mut kept: Vec<i64> = Vec::new();
        let mut k: usize = 0;
        proof {
            assert(order.subrange(0, order.len() as int) =~= order);
            assert(results_view(self.queued_updates@) =~= applied.queued_updates
                + absent_removed(applied.table, seen, 0).1);
            assert forall|j: int| 0 <= j < order.len() implies self.stored_state@.contains_key(
                #[trigger] order[j],
            ) && applied.table.records.contains_key(order[j])
                && self.stored_state@[order[j]]@ == applied.table.records[order[j]] by {
                assert(order.contains(order[j]));
            }
        }
        while k < self.stored_order.len()
            invariant
                k <= self.stored_order.len(),
                seen == rows_view(rows@),
                order == applied.table.order,
                self.stored_order@ == order,
                order.no_duplicates(),
                forall|rowid: i64|
                    self.stored_state@.contains_key(rowid) ==> (
                    #[trigger] self.stored_state@[rowid]).wf(),
                forall|j: int|
                    0 <= j < self.queued_updates@.len() ==> (#[trigger] self.queued_updates@[j]).wf(),
                kept@ == absent_removed(applied.table, seen, k as int).0.order,
                records_view(self.stored_state@) == absent_removed(
                    applied.table,
                    seen,
                    k as int,
                ).0.records,
                results_view(self.queued_updates@) == applied.queued_updates + absent_removed(
                    applied.table,
                    seen,
                    k as int,
                ).1,
                forall|j: int|
                    k <= j < order.len() ==> self.stored_state@.contains_key(#[trigger] order[j])
                        && applied.table.records.contains_key(order[j])
                        && self.stored_state@[order[j]]@ == applied.table.records[order[j]],
                forall|rowid: i64|
                    self.stored_state@.contains_key(rowid) <==> kept@.contains(rowid)
                        || order.subrange(k as int, order.len() as int).contains(rowid),
                forall|rowid: i64|
                    kept@.contains(rowid) ==> order.subrange(0, k as int).contains(rowid),
                kept@.no_duplicates(),
                self.table_name@ == old(self).table_name@,
                texts_view(self.column_names@) == texts_view(old(self).column_names@),
                self.last_saved_data_version == old(self).last_saved_data_version,
            decreases self.stored_order.len() - k,
        {
            let rowid = self.stored_order[k];
            let ghost records_before = self.stored_state@;
            let ghost kept_before = kept@;
            let ghost queue_before = self.queued_updates@;
            proof {
                assert(order[k as int] == rowid);
                lemma_order_step(order, k as int);
                assert(!kept_before.contains(rowid));
            }
            if holds_row(rows, rowid) {
                kept.push(rowid);
                proof {
                    assert forall|id: i64| kept@.contains(id) <==> kept_before.contains(id) || id
                        == rowid by {
                        if kept_before.contains(id) {
                            let j = kept_before.index_of(id);
                            assert(kept@[j] == id);
                        }
                        if id == rowid {
                            assert(kept@[kept@.len() - 1] == id);
                        }
                        if kept@.contains(id) && id != rowid {
                            let j = kept@.index_of(id);
                            assert(kept_before[j] == id);
                        }
                    }
                    assert forall|id: i64|
                        self.stored_state@.contains_key(id) <==> kept@.contains(id)
                            || order.subrange(k + 1, order.len() as int).contains(id) by {
                        assert(order.subrange(k as int, order.len() as int).contains(id) <==> id
                            == rowid || order.subrange(k + 1, order.len() as int).contains(id));
                        assert(kept@.contains(id) <==> kept_before.contains(id) || id == rowid);
                        assert(records_before.contains_key(id) <==> kept_before.contains(id)
                            || order.subrange(k as int, order.len() as int).contains(id));
                    }
                    assert forall|id: i64| kept@.contains(id) implies order.subrange(
                        0,
                        k + 1,
                    ).contains(id) by {
                        assert(order.subrange(0, k + 1).contains(id) <==> id == rowid
                            || order.subrange(0, k as int).contains(id));
                        assert(kept@.contains(id) <==> kept_before.contains(id) || id == rowid);
                        if kept_before.contains(id) {
                            assert(order.subrange(0, k as int).contains(id));
                        }
                    }
                }
            } else {
                let removed = self.stored_state.remove(&rowid);
                proof {
                    assert(records_before.contains_key(rowid));
                    assert(removed is Some);
                    assert(removed.unwrap()@ == applied.table.records[rowid]);
                    assert(removed.unwrap().wf());
                }
                match removed {
                    Some(old_values) => {
                        let deletion = diff_result(DataEventType::Delete, rowid, old_values);
                        self.queued_updates.push_back(deletion);
                    },
                    None => {},
                }
                proof {
                    assert(records_view(self.stored_state@) =~= records_view(
                        records_before,
                    ).remove(rowid));
                    assert(self.stored_state@ =~= records_before.remove(rowid));
                    assert(absent_removed(applied.table, seen, k + 1).1 == absent_removed(
                        applied.table,
                        seen,
                        k as int,
                    ).1.push(delete_event(rowid, applied.table.records[rowid])));
                    assert(results_view(self.queued_updates@) =~= results_view(
                        queue_before,
                    ).push(delete_event(rowid, applied.table.records[rowid])));
                    assert(results_view(self.queued_updates@) =~= applied.queued_updates
                        + absent_removed(applied.table, seen, k + 1).1);
                    assert forall|id: i64|
                        self.stored_state@.contains_key(id) <==> kept@.contains(id)
                            || order.subrange(k + 1, order.len() as int).contains(id) by {
                        assert(order.subrange(k as int, order.len() as int).contains(id) <==> id
                            == rowid || order.subrange(k + 1, order.len() as int).contains(id));
                        assert(records_before.contains_key(id) <==> kept_before.contains(id)
                            || order.subrange(k as int, order.len() as int).contains(id));
                    }
                    assert forall|id: i64| kept@.contains(id) implies order.subrange(
                        0,
                        k + 1,
                    ).contains(id) by {
                        assert(order.subrange(0, k + 1).contains(id) <==> id == rowid
                            || order.subrange(0, k as int).contains(id));
                        if kept_before.contains(id) {
                            assert(order.subrange(0, k as int).contains(id));
                        }
                    }
                    assert forall|j: int| k + 1 <= j < order.len() implies
                        self.stored_state@.contains_key(#[trigger] order[j])
                        && applied.table.records.contains_key(order[j])
                        && self.stored_state@[order[j]]@ == applied.table.records[order[j]] by {
                        assert(order[j] != rowid);
                    }
                }
            }
            k += 1;
        }
        proof {
            assert(order.subrange(order.len() as int, order.len() as int).len() == 0);
            assert forall|id: i64| kept@.contains(id) <==> self.stored_state@.contains_key(id) by {
                if order.subrange(order.len() as int, order.len() as int).contains(id) {
                    let j = order.subrange(order.len() as int, order.len() as int).index_of(id);
                }
            }
        }
        self.stored_order = kept;
        if self.queued_updates.len() > 0 {
            self.queued_updates.push_back(ReadResult::FinishedSource { commit_allowed: true });
        }
        proof {
            let loaded = table_loaded(start.table, start.queued_updates, seen);
            assert(applied.table == rows_applied(start.table, seen, seen.len() as int).0);
            assert(self@.table.order == loaded.0.order);
            assert(self@.table.records == loaded.0.records);
            assert(self@.queued_updates =~= loaded.1);
            assert forall|i: int| 0 <= i < self.queued_updates@.len() implies (
            #[trigger] self.queued_updates@[i]).wf() by {}
        }
    }

    /// The result that is queued first, if any. It is handed out once.
    pub fn take_queued(&mut self) -> (r: Option<ReadResult>)
        requires
            old(self).wf(),
        ensures
            final(self).wf(),
            match r {
                Some(result) => {
                    &&& old(self)@.queued_updates.len() > 0
                    &&& result@ == old(self)@.queued_updates[0]
                    &&& result.wf()
                    &&& final(self)@ == (SqliteReaderView {
                        queued_updates: old(self)@.queued_updates.drop_first(),
                        ..old(self)@
                    })
                },
                None => old(self)@.queued_updates.len() == 0 && final(self)@ == old(self)@,
            },
    {
        let r = self.queued_updates.pop_front();
        proof {
            if r is Some {
                assert(self@.queued_updates =~= old(self)@.queued_updates.drop_first());
                assert forall|i: int| 0 <= i < self.queued_updates@.len() implies (
                #[trigger] self.queued_updates@[i]).wf() by {
                    assert(self.queued_updates@[i] == old(self).queued_updates@[i + 1]);
                }
            } else {
                assert(self@.queued_updates =~= old(self)@.queued_updates);
            }
        }
        r
    }

    /// Whether the table is to be read again: its data version is not the
    /// one of the last reading.
    pub fn needs_reload(&self, current_data_version: i64) -> (r: bool)
        ensures
            r == (self@.last_saved_data_version != Some(current_data_version)),
    {
        match self.last_saved_data_version {
            Some(saved) => saved != current_data_version,
            None => true,
        }
    }

    /// Takes the reading of the table that was made at the data version
    /// `current_data_version`, and begins a new source.
    pub fn on_table(&mut self, current_data_version: i64, rows: &Vec<(i64, ValuesMap)>) -> (r:
        ReadResult)
        requires
            old(self).wf(),
            forall|i: int| 0 <= i < rows.len() ==> (#[trigger] rows[i]).1.wf(),
        ensures
            final(self).wf(),
            r@ == ReadResultView::NewSource(None),
            final(self)@ == (SqliteReaderView {
                last_saved_data_version: Some(current_data_version),
                table: table_loaded(
                    old(self)@.table,
                    old(self)@.queued_updates,
                    rows_view(rows@),
                ).0,
                queued_updates: table_loaded(
                    old(self)@.table,
                    old(self)@.queued_updates,
                    rows_view(rows@),
                ).1,
                ..old(self)@
            }),
    {
        self.load_table(rows);
        self.last_saved_data_version = Some(current_data_version);
        ReadResult::NewSource(None)
    }

    /// How long the reader waits before it asks for the data version again,
    /// in milliseconds.
    pub fn wait_period() -> (millis: u64)
        ensures
            millis == 500,
    {
        500
    }

    /// The kind of source, by which frontiers of the reader are merged.
    pub fn storage_type(&self) -> (r: StorageType)
        ensures
            r == StorageType::Sqlite,
    {
        StorageType::Sqlite
    }

    /// How many reads may fail in a row before the runtime gives up.
    pub fn max_allowed_consecutive_errors(&self) -> (r: usize)
        ensures
            r == 0,
    {
        0
    }

    /// The id under which the state of the reader is persisted: none, since
    /// the state of this reader cannot be persisted.
    pub fn persistent_id(&self) -> (r: Option<u128>)
        ensures
            r is None,
    {
        None
    }

    /// Accepts the absence of a persistent id. The state of this reader
    /// cannot be persisted, so no id can be set.
    pub fn update_persistent_id(&mut self, persistent_id: Option<u128>)
        requires
            persistent_id is None,
        ensures
            *final(self) == *old(self),
    {
    }
}

} // verus!
