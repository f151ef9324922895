//! The writer to a row store: which statements a flush sends, and in which
//! form a value goes into a column.

use crate::bindings::str_from_utf8;
use crate::value::{clone_values, values_view, Value, ValueView};
use crate::writer::{FormatterContext, FormatterContextView};
use vstd::prelude::*;
use vstd::string::*;
use vstd::utf8::{decode_utf8, valid_utf8};

verus! {

/// The form in which a value can go into a column.
#[derive(Clone, Copy, Debug, PartialEq, Eq, Structural)]
pub enum SqlTarget {
    Bool,
    /// A 64-bit integer.
    BigInt,
    /// A 32-bit integer.
    Integer,
    /// A 16-bit integer.
    SmallInt,
    /// An 8-bit integer.
    TinyInt,
    /// A double-precision number.
    Double,
    /// A single-precision number.
    Real,
    /// The printed form of a pointer.
    OwnedText,
    Text,
    ByteSlice,
    ValueSlice,
    NaiveDateTime,
    UtcDateTime,
    Json,
}

/// What becomes of a value that is to go into a column.
#[derive(Debug, PartialEq, Eq)]
pub enum SqlEncoding {
    /// The column is set to null.
    Null,
    /// The value goes into the column in this form.
    Forward(SqlTarget),
    /// The column takes an integer of this form, and the value does not fit
    /// it.
    OutOfRange(SqlTarget),
    /// The column takes none of the forms of the value, which is of the
    /// named kind.
    WrongType(String),
}

/// The mathematical content of a [`SqlEncoding`].
pub enum SqlEncodingView {
    Null,
    Forward(SqlTarget),
    OutOfRange(SqlTarget),
    WrongType(Seq<char>),
}

impl View for SqlEncoding {
    type V = SqlEncodingView;

    open spec fn view(&self) -> SqlEncodingView {
        match self {
            SqlEncoding::Null => SqlEncodingView::Null,
            SqlEncoding::Forward(target) => SqlEncodingView::Forward(*target),
            SqlEncoding::OutOfRange(target) => SqlEncodingView::OutOfRange(*target),
            SqlEncoding::WrongType(name) => SqlEncodingView::WrongType(name@),
        }
    }
}

/// The forms in which a value can go into a column, in the order in which
/// they are tried.
pub open spec fn sql_targets(value: ValueView) -> Seq<SqlTarget> {
    match value {
        ValueView::Bool(_) => seq![SqlTarget::Bool],
        ValueView::Int(_) => seq![
            SqlTarget::BigInt,
            SqlTarget::Integer,
            SqlTarget::SmallInt,
            SqlTarget::TinyInt,
            SqlTarget::Double,
            SqlTarget::Real,
        ],
        ValueView::Float(_) => seq![SqlTarget::Double, SqlTarget::Real],
        ValueView::Pointer(_) => seq![SqlTarget::OwnedText],
        ValueView::String(_) => seq![SqlTarget::Text],
        ValueView::Bytes(_) => seq![SqlTarget::ByteSlice],
        ValueView::Tuple(_) => seq![SqlTarget::ValueSlice],
        ValueView::DateTimeNaive(_) => seq![SqlTarget::NaiveDateTime],
        ValueView::DateTimeUtc(_) => seq![SqlTarget::UtcDateTime],
        ValueView::Json(_) => seq![SqlTarget::Json],
        _ => seq![],
    }
}

/// The name of the kind of a value, as errors tell it.
pub open spec fn sql_type_name(value: ValueView) -> Seq<char> {
    match value {
        ValueView::Null => "none"@,
        ValueView::Bool(_) => "bool"@,
        ValueView::Int(_) => "int"@,
        ValueView::Float(_) => "float"@,
        ValueView::Pointer(_) => "pointer"@,
        ValueView::String(_) => "string"@,
        ValueView::Bytes(_) => "bytes"@,
        ValueView::Tuple(_) => "tuple"@,
        ValueView::IntArray(_, _) => "int array"@,
        ValueView::FloatArray(_, _) => "float array"@,
        ValueView::DateTimeNaive(_) => "naive date/time"@,
        ValueView::DateTimeUtc(_) => "UTC date/time"@,
        ValueView::Duration(_) => "duration"@,
        ValueView::Json(_) => "JSON"@,
        ValueView::Error => "error"@,
        ValueView::PyObjectWrapper(_) => "PyObjectWrapper"@,
    }
}

/// Whether a value fits a form. Only an integer can fail to: it must lie in
/// the range of the integer form.
pub open spec fn fits_target(value: ValueView, target: SqlTarget) -> bool {
    match value {
        ValueView::Int(i) => match target {
            SqlTarget::Integer => i32::MIN <= i <= i32::MAX,
            SqlTarget::SmallInt => i16::MIN <= i <= i16::MAX,
            SqlTarget::TinyInt => i8::MIN <= i <= i8::MAX,
            _ => true,
        },
        _ => true,
    }
}

/// The place of the first form among the first `n` that the column takes.
pub open spec fn first_accepted(accepts: Seq<bool>, n: int) -> Option<int>
    decreases n,
{
    if n <= 0 {
        None
    } else {
        match first_accepted(accepts, n - 1) {
            Some(i) => Some(i),
            None => if accepts[n - 1] {
                Some(n - 1)
            } else {
                None
            },
        }
    }
}

/// What becomes of a value that is to go into a column which takes the
/// forms of the value as `accepts` tells, form by form. The absent value
/// sets the column to null. Otherwise the first form that the column takes
/// decides: the value goes in that form if it fits, and is out of range if
/// not. A column that takes none of the forms has the wrong type.
pub open spec fn sql_encoding(value: ValueView, accepts: Seq<bool>) -> SqlEncodingView {
    if value is Null {
        SqlEncodingView::Null
    } else {
        match first_accepted(accepts, sql_targets(value).len() as int) {
            Some(i) => if fits_target(value, sql_targets(value)[i]) {
                SqlEncodingView::Forward(sql_targets(value)[i])
            } else {
                SqlEncodingView::OutOfRange(sql_targets(value)[i])
            },
            None => SqlEncodingView::WrongType(sql_type_name(value)),
        }
    }
}

/// The forms in which `value` can go into a column, in the order in which
/// they are tried.
pub fn targets_of(value: &Value) -> (r: Vec<SqlTarget>)
    ensures
        r@ == sql_targets(value@),
{
    let mut targets: Vec<SqlTarget> = Vec::new();
    match value {
        Value::Bool(_) => {
            targets.push(SqlTarget::Bool);
        },
        Value::Int(_) => {
            targets.push(SqlTarget::BigInt);
            targets.push(SqlTarget::Integer);
            targets.push(SqlTarget::SmallInt);
            targets.push(SqlTarget::TinyInt);
            targets.push(SqlTarget::Double);
            targets.push(SqlTarget::Real);
        },
        Value::Float(_) => {
            targets.push(SqlTarget::Double);
            targets.push(SqlTarget::Real);
        },
        Value::Pointer(_) => {
            targets.push(SqlTarget::OwnedText);
        },
        Value::String(_) => {
            targets.push(SqlTarget::Text);
        },
        Value::Bytes(_) => {
            targets.push(SqlTarget::ByteSlice);
        },
        Value::Tuple(_) => {
            targets.push(SqlTarget::ValueSlice);
        },
        Value::DateTimeNaive(_) => {
            targets.push(SqlTarget::NaiveDateTime);
        },
        Value::DateTimeUtc(_) => {
            targets.push(SqlTarget::UtcDateTime);
        },
        Value::Json(_) => {
            targets.push(SqlTarget::Json);
        },
        _ => {},
    }
    assert(targets@ =~= sql_targets(value@));
    targets
}

/// The name of the kind of `value`, as errors tell it.
pub fn type_name_of(value: &Value) -> (r: &'static str)
    ensures
        r@ == sql_type_name(value@),
{
    match value {
        Value::Null => "none",
        Value::Bool(_) => "bool",
        Value::Int(_) => "int",
        Value::Float(_) => "float",
        Value::Pointer(_) => "pointer",
        Value::String(_) => "string",
        Value::Bytes(_) => "bytes",
        Value::Tuple(_) => "tuple",
        Value::IntArray(_, _) => "int array",
        Value::FloatArray(_, _) => "float array",
        Value::DateTimeNaive(_) => "naive date/time",
        Value::DateTimeUtc(_) => "UTC date/time",
        Value::Duration(_) => "duration",
        Value::Json(_) => "JSON",
        Value::Error => "error",
        Value::PyObjectWrapper(_) => "PyObjectWrapper",
    }
}

fn fits(value: &Value, target: SqlTarget) -> (r: bool)
    ensures
        r == fits_target(value@, target),
{
    match value {
        Value::Int(i) => match target {
            SqlTarget::Integer => -2147483648 <= *i && *i <= 2147483647,
            SqlTarget::SmallInt => -32768 <= *i && *i <= 32767,
            SqlTarget::TinyInt => -128 <= *i && *i <= 127,
            _ => true,
        },
        _ => true,
    }
}

impl Value {
    /// Decides what becomes of the value in a column. `accepts` tells for
    /// each form of [`targets_of`] whether the column takes it. See
    /// [`sql_encoding`].
    pub fn to_sql(&self, accepts: &Vec<bool>) -> (r: SqlEncoding)
        requires
            accepts.len() == sql_targets(self@).len(),
        ensures
            r@ == sql_encoding(self@, accepts@),
    {
        if let Value::Null = self {
            return SqlEncoding::Null;
        }
        let targets = targets_of(self);
        let mut i: usize = 0;
        while i < targets.len()
            invariant
                i <= targets.len(),
                targets@ == sql_targets(self@),
                accepts.len() == targets.len(),
                first_accepted(accepts@, i as int) is None,
            decreases targets.len() - i,
        {
            if accepts[i] {
                proof {
                    lemma_first_accepted_found(accepts@, i as int, targets.len() as int);
                }
                if fits(self, targets[i]) {
                    return SqlEncoding::Forward(targets[i]);
                } else {
                    return SqlEncoding::OutOfRange(targets[i]);
                }
            }
            i += 1;
        }
        SqlEncoding::WrongType(type_name_of(self).to_owned())
    }
}

/// Once the first form that the column takes is found, looking at more
/// forms does not change it.
proof fn lemma_first_accepted_found(accepts: Seq<bool>, i: int, n: int)
    requires
        0 <= i < n,
        first_accepted(accepts, i) is None,
        accepts[i],
    ensures
        first_accepted(accepts, n) == Some(i),
    decreases n - i,
{
    if n > i + 1 {
        lemma_first_accepted_found(accepts, i, n - 1);
    }
}

/// One statement to execute: the query and the values of its parameters.
#[derive(Debug)]
pub struct PsqlStatement {
    pub query: String,
    pub values: Vec<Value>,
}

impl View for PsqlStatement {
    type V = (Seq<char>, Seq<ValueView>);

    open spec fn view(&self) -> (Seq<char>, Seq<ValueView>) {
        (self.query@, values_view(self.values@))
    }
}

/// The content of each statement of a list, in order.
pub open spec fn statements_view(statements: Seq<PsqlStatement>) -> Seq<
    (Seq<char>, Seq<ValueView>),
> {
    Seq::new(statements.len(), |i: int| statements[i]@)
}

/// What a flush sends. The statements are executed in order within one
/// transaction. Where `malformed` holds, a payload that was to follow them
/// is not UTF-8: the flush then fails for that reason once the statements
/// are through, and the transaction is not committed.
#[derive(Debug)]
pub struct PsqlBatch {
    pub statements: Vec<PsqlStatement>,
    pub malformed: bool,
}

/// The payloads of the first `n` buffered records, each with the values of
/// its record, in order.
pub open spec fn raw_statements(buffer: Seq<FormatterContextView>, n: int) -> Seq<
    (Seq<u8>, Seq<ValueView>),
>
    decreases n,
{
    if n <= 0 {
        seq![]
    } else {
        raw_statements(buffer, n - 1) + record_statements(buffer[n - 1])
    }
}

/// The payloads of one record, each with the values of the record.
pub open spec fn record_statements(data: FormatterContextView) -> Seq<(Seq<u8>, Seq<ValueView>)> {
    Seq::new(data.payloads.len(), |j: int| (data.payloads[j], data.values))
}

/// The statements that payloads stand for: the text of each payload as the
/// query, with the values as parameters.
pub open spec fn decoded(raw: Seq<(Seq<u8>, Seq<ValueView>)>) -> Seq<(Seq<char>, Seq<ValueView>)> {
    Seq::new(raw.len(), |i: int| (decode_utf8(raw[i].0), raw[i].1))
}

/// Every payload of a list is UTF-8.
pub open spec fn all_text(raw: Seq<(Seq<u8>, Seq<ValueView>)>) -> bool {
    forall|i: int| 0 <= i < raw.len() ==> valid_utf8(#[trigger] raw[i].0)
}

/// The batch that a flush of `raw` sends: the statements of the payloads up
/// to the first one that is not UTF-8, and whether there is such a one.
pub open spec fn is_batch_of(
    raw: Seq<(Seq<u8>, Seq<ValueView>)>,
    statements: Seq<(Seq<char>, Seq<ValueView>)>,
    malformed: bool,
) -> bool {
    &&& statements.len() <= raw.len()
    &&& all_text(raw.subrange(0, statements.len() as int))
    &&& statements == decoded(raw.subrange(0, statements.len() as int))
    &&& malformed == (statements.len() < raw.len())
    &&& malformed ==> !valid_utf8(raw[statements.len() as int].0)
}

/// The content of each record of a buffer, in order.
pub open spec fn buffer_view(buffer: Seq<FormatterContext>) -> Seq<FormatterContextView> {
    Seq::new(buffer.len(), |i: int| buffer[i]@)
}

/// The state of a writer to a row store.
pub struct PsqlWriterView {
    pub max_batch_size: Option<usize>,
    pub buffer: Seq<FormatterContextView>,
    pub snapshot_mode: bool,
}

/// Buffers records and sends them to a row store in batches.
#[derive(Debug)]
pub struct PsqlWriter {
    max_batch_size: Option<usize>,
    buffer: Vec<FormatterContext>,
    snapshot_mode: bool,
}

impl View for PsqlWriter {
    type V = PsqlWriterView;

    closed spec fn view(&self) -> PsqlWriterView {
        PsqlWriterView {
            max_batch_size: self.max_batch_size,
            buffer: buffer_view(self.buffer@),
            snapshot_mode: self.snapshot_mode,
        }
    }
}

/// The payloads of more records begin with the payloads of fewer.
proof fn lemma_raw_statements_grow(buffer: Seq<FormatterContextView>, i: int, n: int)
    requires
        0 <= i <= n,
    ensures
        raw_statements(buffer, i).len() <= raw_statements(buffer, n).len(),
        raw_statements(buffer, n).subrange(0, raw_statements(buffer, i).len() as int)
            == raw_statements(buffer, i),
    decreases n - i,
{
    if i < n {
        lemma_raw_statements_grow(buffer, i, n - 1);
        let less = raw_statements(buffer, i);
        let more = raw_statements(buffer, n - 1);
        assert(raw_statements(buffer, n).subrange(0, less.len() as int) =~= more.subrange(
            0,
            less.len() as int,
        ));
    } else {
        assert(raw_statements(buffer, n).subrange(0, raw_statements(buffer, i).len() as int)
            =~= raw_statements(buffer, i));
    }
}

fn collect_statements(buffer: &Vec<FormatterContext>) -> (batch: PsqlBatch)
    ensures
        is_batch_of(
            raw_statements(buffer_view(buffer@), buffer.len() as int),
            statements_view(batch.statements@),
            batch.malformed,
        ),
{
    let ghost records = buffer_view(buffer@);
    let ghost raw = raw_statements(records, buffer.len() as int);
    let mut statements: Vec<PsqlStatement> = Vec::new();
    let mut i: usize = 0;
    while i < buffer.len()
        invariant
            i <= buffer.len(),
            records == buffer_view(buffer@),
            raw == raw_statements(records, buffer.len() as int),
            all_text(raw_statements(records, i as int)),
            statements_view(statements@) == decoded(raw_statements(records, i as int)),
        decreases buffer.len() - i,
    {
        let data = &buffer[i];
        let ghost done = raw_statements(records, i as int);
        let ghost added = record_statements(data@);
        assert(records[i as int] == data@);
        assert(raw_statements(records, i + 1) == done + added);
        let mut j: usize = 0;
        while j < data.payloads.len()
            invariant
                j <= data.payloads.len(),
                i < buffer.len(),
                records == buffer_view(buffer@),
                raw == raw_statements(records, buffer.len() as int),
                raw_statements(records, i + 1) == done + added,
                added == record_statements(data@),
                all_text(done + added.subrange(0, j as int)),
                statements_view(statements@) == decoded(done + added.subrange(0, j as int)),
            decreases data.payloads.len() - j,
        {
            let ghost before = done + added.subrange(0, j as int);
            let ghost next = done + added.subrange(0, j + 1);
            assert(data@.payloads[j as int] == data.payloads[j as int]@);
            assert(added[j as int] == (data.payloads[j as int]@, data@.values));
            assert(next =~= before.push(added[j as int]));
            match str_from_utf8(data.payloads[j].as_slice()) {
                Some(query) => {
                    proof {
                        vstd::utf8::encode_utf8_decode_utf8(query@);
                    }
                    let ghost old_statements = statements@;
                    statements.push(
                        PsqlStatement { query: query.to_owned(), values: clone_values(&data.values) },
                    );
                    proof {
                        assert(statements_view(statements@) =~= statements_view(
                            old_statements,
                        ).push((decode_utf8(added[j as int].0), added[j as int].1)));
                        assert(decoded(next) =~= decoded(before).push(
                            (decode_utf8(added[j as int].0), added[j as int].1),
                        ));
                        assert forall|k: int| 0 <= k < next.len() implies valid_utf8(
                            #[trigger] next[k].0,
                        ) by {
                            if k < before.len() {
                                assert(next[k] == before[k]);
                            }
                        }
                    }
                },
                None => {
                    proof {
                        lemma_raw_statements_grow(records, i + 1, buffer.len() as int);
                        let full = raw_statements(records, i + 1);
                        assert(full.subrange(0, before.len() as int) =~= before);
                        assert(raw.subrange(0, before.len() as int) =~= full.subrange(
                            0,
                            before.len() as int,
                        ));
                        assert(full[before.len() as int] == added[j as int]);
                        assert(raw[before.len() as int] == raw.subrange(
                            0,
                            full.len() as int,
                        )[before.len() as int]);
                        assert(statements_view(statements@).len() == before.len());
                    }
                    return PsqlBatch { statements, malformed: true };
                },
            }
            j += 1;
        }
        assert(added.subrange(0, data.payloads.len() as int) =~= added);
        i += 1;
    }
    proof {
        assert(raw.subrange(0, raw.len() as int) =~= raw);
        assert(statements_view(statements@).len() == raw.len());
    }
    PsqlBatch { statements, malformed: false }
}

impl PsqlWriter {
    /// A writer with an empty buffer.
    pub fn new(max_batch_size: Option<usize>, snapshot_mode: bool) -> (r: PsqlWriter)
        ensures
            r@ == (PsqlWriterView { max_batch_size, buffer: seq![], snapshot_mode }),
    {
        let r = PsqlWriter { max_batch_size, buffer: Vec::new(), snapshot_mode };
        assert(r@.buffer =~= seq![]);
        r
    }

    /// Buffers a record, and tells whether the buffer is to be flushed now:
    /// it is when it has reached the batch size.
    pub fn write(&mut self, data: FormatterContext) -> (flush_now: bool)
        ensures
            final(self)@ == (PsqlWriterView {
                buffer: old(self)@.buffer.push(data@),
                ..old(self)@
            }),
            flush_now == (old(self)@.max_batch_size == Some(
                (old(self)@.buffer.len() + 1) as usize,
            )),
    {
        let ghost content = data@;
        self.buffer.push(data);
        assert(self@.buffer =~= old(self)@.buffer.push(content));
        match self.max_batch_size {
            Some(max_batch_size) => self.buffer.len() == max_batch_size,
            None => false,
        }
    }

    /// Number of buffered records.
    pub fn buffered(&self) -> (n: usize)
        ensures
            n == self@.buffer.len(),
    {
        self.buffer.len()
    }

    /// Empties the buffer into the batch that a flush sends: one statement
    /// for each payload of each record, in order, with the values of the
    /// record as parameters, up to the first payload that is not UTF-8.
    pub fn flush(&mut self) -> (batch: PsqlBatch)
        ensures
            final(self)@ == (PsqlWriterView { buffer: seq![], ..old(self)@ }),
            is_batch_of(
                raw_statements(old(self)@.buffer, old(self)@.buffer.len() as int),
                statements_view(batch.statements@),
                batch.malformed,
            ),
    {
        let batch = collect_statements(&self.buffer);
        self.buffer.clear();
        assert(self@.buffer =~= seq![]);
        batch
    }

    /// Whether a failed write may be tried again.
    pub fn retriable(&self) -> (r: bool)
        ensures
            !r,
    {
        false
    }

    /// Whether writes must come from one thread: they must where the table
    /// is kept as a snapshot.
    pub fn single_threaded(&self) -> (r: bool)
        ensures
            r == self@.snapshot_mode,
    {
        self.snapshot_mode
    }
}

} // verus!
