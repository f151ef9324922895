//! What a writer takes from the runtime and the ways in which writing fails.

use crate::reader::{S3CommandName, S3Failure};
use crate::value::{values_view, Type, Value, ValueView};
use vstd::prelude::*;

verus! {

/// The type of a column of a columnar table.
#[derive(Debug, Clone, PartialEq, Eq)]
pub enum ArrowType {
    Boolean,
    Int64,
    Float64,
    Utf8,
    Binary,
    /// Microseconds since the Unix epoch, in the given time zone if any.
    TimestampMicrosecond { timezone: Option<String> },
}

/// The mathematical content of an [`ArrowType`].
pub enum ArrowTypeView {
    Boolean,
    Int64,
    Float64,
    Utf8,
    Binary,
    TimestampMicrosecond { timezone: Option<Seq<char>> },
}

impl View for ArrowType {
    type V = ArrowTypeView;

    open spec fn view(&self) -> ArrowTypeView {
        match self {
            ArrowType::Boolean => ArrowTypeView::Boolean,
            ArrowType::Int64 => ArrowTypeView::Int64,
            ArrowType::Float64 => ArrowTypeView::Float64,
            ArrowType::Utf8 => ArrowTypeView::Utf8,
            ArrowType::Binary => ArrowTypeView::Binary,
            ArrowType::TimestampMicrosecond { timezone } => ArrowTypeView::TimestampMicrosecond {
                timezone: crate::text::optional_text_view(*timezone),
            },
        }
    }
}

impl ArrowType {
    /// A copy of the type.
    pub fn duplicate(&self) -> (r: ArrowType)
        ensures
            r@ == self@,
    {
        match self {
            ArrowType::Boolean => ArrowType::Boolean,
            ArrowType::Int64 => ArrowType::Int64,
            ArrowType::Float64 => ArrowType::Float64,
            ArrowType::Utf8 => ArrowType::Utf8,
            ArrowType::Binary => ArrowType::Binary,
            ArrowType::TimestampMicrosecond { timezone } => ArrowType::TimestampMicrosecond {
                timezone: crate::text::clone_optional_text(timezone),
            },
        }
    }
}

/// Why a write failed. A failure that arose in a backend carries the message
/// of that backend.
#[derive(Debug, PartialEq, Eq)]
pub enum WriteError {
    Io(String),
    Kafka(String),
    S3(S3CommandName, S3Failure),
    Postgres(String),
    /// A payload that was to be a query is not UTF-8.
    Utf8,
    Bincode(String),
    DeltaTable(String),
    Arrow(String),
    /// A value does not fit the type of its column.
    TypeMismatchWithSchema(Value, ArrowType),
    IntOutOfRange(i64),
    /// The value that was to be the key of a message is neither bytes nor text.
    IncorrectKeyFieldType(Value),
    /// A column is declared with a type that the table cannot hold.
    UnsupportedType(Type),
    PsqlQueryFailed { query: String, error: String },
    Elasticsearch(String),
}

/// One logical record as a formatter hands it to a writer.
#[derive(Debug)]
pub struct FormatterContext {
    /// The serialised forms of the record.
    pub payloads: Vec<Vec<u8>>,
    /// The primary key of the record.
    pub key: u128,
    /// The values of the record, column by column.
    pub values: Vec<Value>,
    /// The time at which the record was committed.
    pub time: u64,
    /// Whether the record is added (positive) or retracted (negative).
    pub diff: isize,
}

/// The content of each payload of a list, in order.
pub open spec fn payloads_view(payloads: Seq<Vec<u8>>) -> Seq<Seq<u8>> {
    Seq::new(payloads.len(), |i: int| payloads[i]@)
}

/// The mathematical content of a [`FormatterContext`].
pub struct FormatterContextView {
    pub payloads: Seq<Seq<u8>>,
    pub key: u128,
    pub values: Seq<ValueView>,
    pub time: u64,
    pub diff: isize,
}

impl View for FormatterContext {
    type V = FormatterContextView;

    open spec fn view(&self) -> FormatterContextView {
        FormatterContextView {
            payloads: payloads_view(self.payloads@),
            key: self.key,
            values: values_view(self.values@),
            time: self.time,
            diff: self.diff,
        }
    }
}

/// A writer that takes every record and does nothing with it, for sinks
/// whose effects happen elsewhere.
#[derive(Debug)]
pub struct NullWriter {}

impl NullWriter {
    /// The writer.
    pub fn new() -> (r: Self) {
        NullWriter {  }
    }

    /// Takes a record. Nothing can go wrong.
    pub fn write(&mut self, data: FormatterContext) -> (r: Result<(), WriteError>)
        ensures
            r is Ok,
    {
        Ok(())
    }

    /// Persists what was taken. There is nothing to persist.
    pub fn flush(&mut self, forced: bool) -> (r: Result<(), WriteError>)
        ensures
            r is Ok,
    {
        Ok(())
    }

    /// Whether a failed write may be tried again.
    pub fn retriable(&self) -> (r: bool)
        ensures
            !r,
    {
        false
    }

    /// Whether writes must come from one thread.
    pub fn single_threaded(&self) -> (r: bool)
        ensures
            !r,
    {
        false
    }
}

/// The bytes that a writer to a file puts out for a record: each payload
/// followed by a line feed.
pub open spec fn file_lines(payloads: Seq<Seq<u8>>, n: int) -> Seq<u8>
    decreases n,
{
    if n <= 0 {
        seq![]
    } else {
        file_lines(payloads, n - 1) + payloads[n - 1] + seq![10u8]
    }
}

/// A writer to a file. The driver that owns the file writes out the bytes
/// that the writer frames.
#[derive(Debug)]
pub struct FileWriter {}

impl FileWriter {
    /// The writer.
    pub fn new() -> (r: Self) {
        FileWriter {  }
    }

    /// The bytes to write for a record.
    pub fn write(&mut self, data: &FormatterContext) -> (r: Vec<u8>)
        ensures
            r@ == file_lines(data@.payloads, data@.payloads.len() as int),
    {
        let mut out: Vec<u8> = Vec::new();
        let mut i: usize = 0;
        while i < data.payloads.len()
            invariant
                i <= data.payloads.len(),
                out@ == file_lines(payloads_view(data.payloads@), i as int),
            decreases data.payloads.len() - i,
        {
            let payload = &data.payloads[i];
            let ghost before = out@;
            let mut j: usize = 0;
            while j < payload.len()
                invariant
                    j <= payload.len(),
                    out@ == before + payload@.subrange(0, j as int),
                decreases payload.len() - j,
            {
                out.push(payload[j]);
                assert(out@ =~= before + payload@.subrange(0, j + 1));
                j += 1;
            }
            out.push(10u8);
            proof {
                assert(payload@.subrange(0, payload.len() as int) =~= payload@);
                assert(payloads_view(data.payloads@)[i as int] == payload@);
                assert(out@ =~= file_lines(payloads_view(data.payloads@), i as int) + payload@
                    + seq![10u8]);
            }
            i += 1;
        }
        out
    }

    /// Whether a failed write may be tried again.
    pub fn retriable(&self) -> (r: bool)
        ensures
            !r,
    {
        false
    }

    /// Whether writes must come from one thread.
    pub fn single_threaded(&self) -> (r: bool)
        ensures
            r,
    {
        true
    }
}

} // verus!
