//! The writer to a columnar table: the schema that a declaration of columns
//! gives, how records are buffered column by column, when a commit is due,
//! and how each column is brought to the type of the schema.

use crate::value::{copy_of, values_view, Type, Value, ValueView};
use crate::writer::{ArrowType, ArrowTypeView, FormatterContext, FormatterContextView, WriteError};
use vstd::prelude::*;
use vstd::string::*;

verus! {

/// A declared column: its name, its type, and whether it may be empty.
#[derive(Debug, PartialEq, Eq)]
pub struct ValueField {
    pub name: String,
    pub type_: Type,
    pub is_optional: bool,
}

/// The type of a column as the table format names it.
#[derive(Clone, Copy, Debug, PartialEq, Eq, Structural)]
pub enum DeltaPrimitiveType {
    Boolean,
    Double,
    String,
    Binary,
    /// A timestamp without a time zone.
    TimestampNtz,
    Timestamp,
    Long,
}

/// The columnar type that holds the values of a declared type. Untyped
/// values, arrays, tuples and foreign objects have none.
pub open spec fn arrow_type_of(type_: Type) -> Option<ArrowTypeView> {
    match type_ {
        Type::Bool => Some(ArrowTypeView::Boolean),
        Type::Int => Some(ArrowTypeView::Int64),
        Type::Duration => Some(ArrowTypeView::Int64),
        Type::Float => Some(ArrowTypeView::Float64),
        Type::Pointer => Some(ArrowTypeView::Utf8),
        Type::String => Some(ArrowTypeView::Utf8),
        Type::Json => Some(ArrowTypeView::Utf8),
        Type::Bytes => Some(ArrowTypeView::Binary),
        Type::DateTimeNaive => Some(ArrowTypeView::TimestampMicrosecond { timezone: None }),
        Type::DateTimeUtc => Some(ArrowTypeView::TimestampMicrosecond { timezone: Some("UTC"@) }),
        Type::Any => None,
        Type::Array => None,
        Type::Tuple => None,
        Type::PyObjectWrapper => None,
    }
}

/// The type of the table format that holds the values of a declared type.
pub open spec fn delta_type_of(type_: Type) -> Option<DeltaPrimitiveType> {
    match type_ {
        Type::Bool => Some(DeltaPrimitiveType::Boolean),
        Type::Float => Some(DeltaPrimitiveType::Double),
        Type::Pointer => Some(DeltaPrimitiveType::String),
        Type::String => Some(DeltaPrimitiveType::String),
        Type::Json => Some(DeltaPrimitiveType::String),
        Type::Bytes => Some(DeltaPrimitiveType::Binary),
        Type::DateTimeNaive => Some(DeltaPrimitiveType::TimestampNtz),
        Type::DateTimeUtc => Some(DeltaPrimitiveType::Timestamp),
        Type::Int => Some(DeltaPrimitiveType::Long),
        Type::Duration => Some(DeltaPrimitiveType::Long),
        Type::Any => None,
        Type::Array => None,
        Type::Tuple => None,
        Type::PyObjectWrapper => None,
    }
}

/// One column of the schema of the buffered data.
#[derive(Debug)]
pub struct SchemaField {
    pub name: String,
    pub data_type: ArrowType,
    pub nullable: bool,
}

/// The mathematical content of a [`SchemaField`].
pub struct SchemaFieldView {
    pub name: Seq<char>,
    pub data_type: ArrowTypeView,
    pub nullable: bool,
}

impl View for SchemaField {
    type V = SchemaFieldView;

    open spec fn view(&self) -> SchemaFieldView {
        SchemaFieldView { name: self.name@, data_type: self.data_type@, nullable: self.nullable }
    }
}

/// One column of the table as it is created.
#[derive(Debug)]
pub struct TableColumn {
    pub name: String,
    pub data_type: DeltaPrimitiveType,
    pub nullable: bool,
}

/// The content of each field of a schema, in order.
pub open spec fn schema_view(schema: Seq<SchemaField>) -> Seq<SchemaFieldView> {
    Seq::new(schema.len(), |i: int| schema[i]@)
}

/// The place of the first declared column among the first `n` whose type
/// the table cannot hold.
pub open spec fn first_unsupported(fields: Seq<ValueField>, n: int) -> Option<int>
    decreases n,
{
    if n <= 0 {
        None
    } else {
        match first_unsupported(fields, n - 1) {
            Some(i) => Some(i),
            None => if arrow_type_of(fields[n - 1].type_) is None {
                Some(n - 1)
            } else {
                None
            },
        }
    }
}

/// The schema that the declared columns give: a column for each of them,
/// followed by the commit time and the sign of each record, both whole
/// numbers that are never empty.
pub open spec fn schema_of(fields: Seq<ValueField>) -> Seq<SchemaFieldView> {
    Seq::new(
        fields.len(),
        |i: int|
            SchemaFieldView {
                name: fields[i].name@,
                data_type: arrow_type_of(fields[i].type_).unwrap(),
                nullable: fields[i].is_optional,
            },
    ).push(SchemaFieldView { name: "time"@, data_type: ArrowTypeView::Int64, nullable: false }).push(
        SchemaFieldView { name: "diff"@, data_type: ArrowTypeView::Int64, nullable: false },
    )
}

/// Once the first unsupported column is found, looking at more columns does
/// not change it.
proof fn lemma_first_unsupported_found(fields: Seq<ValueField>, i: int, n: int)
    requires
        0 <= i < n,
        first_unsupported(fields, i) is None,
        arrow_type_of(fields[i].type_) is None,
    ensures
        first_unsupported(fields, n) == Some(i),
    decreases n - i,
{
    if n > i + 1 {
        lemma_first_unsupported_found(fields, i, n - 1);
    }
}

/// One element of a column that has been brought to the type of the
/// schema. A real number is carried as its bit pattern; a pointer is
/// carried as it is, for the driver to print.
#[derive(Debug, PartialEq, Eq)]
pub enum ArrowCell {
    Boolean(bool),
    Int64(i64),
    Float64(u64),
    Utf8(String),
    Pointer(u128),
    Binary(Vec<u8>),
    /// Microseconds since the Unix epoch.
    Timestamp(i64),
}

/// The mathematical content of an [`ArrowCell`].
pub enum ArrowCellView {
    Boolean(bool),
    Int64(i64),
    Float64(u64),
    Utf8(Seq<char>),
    Pointer(u128),
    Binary(Seq<u8>),
    Timestamp(i64),
}

impl View for ArrowCell {
    type V = ArrowCellView;

    open spec fn view(&self) -> ArrowCellView {
        match self {
            ArrowCell::Boolean(b) => ArrowCellView::Boolean(*b),
            ArrowCell::Int64(i) => ArrowCellView::Int64(*i),
            ArrowCell::Float64(bits) => ArrowCellView::Float64(*bits),
            ArrowCell::Utf8(text) => ArrowCellView::Utf8(text@),
            ArrowCell::Pointer(p) => ArrowCellView::Pointer(*p),
            ArrowCell::Binary(bytes) => ArrowCellView::Binary(bytes@),
            ArrowCell::Timestamp(micros) => ArrowCellView::Timestamp(*micros),
        }
    }
}

/// The content of an optional cell.
pub open spec fn optional_cell_view(cell: Option<ArrowCell>) -> Option<ArrowCellView> {
    match cell {
        Some(c) => Some(c@),
        None => None,
    }
}

/// The whole microseconds in a count of nanoseconds, rounded towards zero.
pub open spec fn micros_of(nanos: i64) -> i64 {
    if nanos >= 0 {
        (nanos / 1000) as i64
    } else {
        (-((-nanos) / 1000)) as i64
    }
}

/// The whole microseconds in `nanos` nanoseconds, rounded towards zero.
pub fn microseconds(nanos: i64) -> (r: i64)
    ensures
        r == micros_of(nanos),
{
    if nanos >= 0 {
        nanos / 1000
    } else {
        let magnitude: u64 = if nanos == i64::MIN {
            9223372036854775808u64
        } else {
            (-nanos) as u64
        };
        let micros: u64 = magnitude / 1000;
        -(micros as i64)
    }
}

/// The element that a value becomes in a column of a type: the absent value
/// becomes the empty element in any column; a value of a kind that the type
/// holds becomes an element of the type; any other value does not fit, and
/// has none.
pub open spec fn cell_of(type_: ArrowTypeView, value: ValueView) -> Option<Option<ArrowCellView>> {
    if value is Null {
        Some(None)
    } else {
        match type_ {
            ArrowTypeView::Boolean => match value {
                ValueView::Bool(b) => Some(Some(ArrowCellView::Boolean(b))),
                _ => None,
            },
            ArrowTypeView::Int64 => match value {
                ValueView::Int(i) => Some(Some(ArrowCellView::Int64(i))),
                ValueView::Duration(d) => Some(Some(ArrowCellView::Int64(micros_of(d)))),
                _ => None,
            },
            ArrowTypeView::Float64 => match value {
                ValueView::Float(bits) => Some(Some(ArrowCellView::Float64(bits))),
                _ => None,
            },
            ArrowTypeView::Utf8 => match value {
                ValueView::String(s) => Some(Some(ArrowCellView::Utf8(s))),
                ValueView::Pointer(p) => Some(Some(ArrowCellView::Pointer(p))),
                ValueView::Json(j) => Some(Some(ArrowCellView::Utf8(j))),
                _ => None,
            },
            ArrowTypeView::Binary => match value {
                ValueView::Bytes(b) => Some(Some(ArrowCellView::Binary(b))),
                _ => None,
            },
            ArrowTypeView::TimestampMicrosecond { timezone: None } => match value {
                ValueView::DateTimeNaive(t) => Some(Some(ArrowCellView::Timestamp(micros_of(t)))),
                _ => None,
            },
            ArrowTypeView::TimestampMicrosecond { timezone: Some(_) } => match value {
                ValueView::DateTimeUtc(t) => Some(Some(ArrowCellView::Timestamp(micros_of(t)))),
                _ => None,
            },
        }
    }
}

fn coerce(type_: &ArrowType, value: &Value) -> (r: Option<Option<ArrowCell>>)
    ensures
        match r {
            Some(cell) => cell_of(type_@, value@) == Some(optional_cell_view(cell)),
            None => cell_of(type_@, value@) is None,
        },
{
    if let Value::Null = value {
        return Some(None);
    }
    match type_ {
        ArrowType::Boolean => match value {
            Value::Bool(b) => Some(Some(ArrowCell::Boolean(*b))),
            _ => None,
        },
        ArrowType::Int64 => match value {
            Value::Int(i) => Some(Some(ArrowCell::Int64(*i))),
            Value::Duration(d) => Some(Some(ArrowCell::Int64(microseconds(*d)))),
            _ => None,
        },
        ArrowType::Float64 => match value {
            Value::Float(bits) => Some(Some(ArrowCell::Float64(*bits))),
            _ => None,
        },
        ArrowType::Utf8 => match value {
            Value::String(s) => Some(Some(ArrowCell::Utf8(s.clone()))),
            Value::Pointer(p) => Some(Some(ArrowCell::Pointer(*p))),
            Value::Json(j) => Some(Some(ArrowCell::Utf8(j.clone()))),
            _ => None,
        },
        ArrowType::Binary => match value {
            Value::Bytes(b) => Some(Some(ArrowCell::Binary(copy_of(b)))),
            _ => None,
        },
        ArrowType::TimestampMicrosecond { timezone: None } => match value {
            Value::DateTimeNaive(t) => Some(Some(ArrowCell::Timestamp(microseconds(*t)))),
            _ => None,
        },
        ArrowType::TimestampMicrosecond { timezone: Some(_) } => match value {
            Value::DateTimeUtc(t) => Some(Some(ArrowCell::Timestamp(microseconds(*t)))),
            _ => None,
        },
    }
}

/// The place of the first value among the first `n` that does not fit a
/// column of a type.
pub open spec fn first_mismatch(type_: ArrowTypeView, values: Seq<ValueView>, n: int) -> Option<int>
    decreases n,
{
    if n <= 0 {
        None
    } else {
        match first_mismatch(type_, values, n - 1) {
            Some(i) => Some(i),
            None => if cell_of(type_, values[n - 1]) is None {
                Some(n - 1)
            } else {
                None
            },
        }
    }
}

/// Once the first value that does not fit is found, looking at more values
/// does not change it.
proof fn lemma_first_mismatch_found(type_: ArrowTypeView, values: Seq<ValueView>, i: int, n: int)
    requires
        0 <= i < n,
        first_mismatch(type_, values, i) is None,
        cell_of(type_, values[i]) is None,
    ensures
        first_mismatch(type_, values, n) == Some(i),
    decreases n - i,
{
    if n > i + 1 {
        lemma_first_mismatch_found(type_, values, i, n - 1);
    }
}

/// Where no value among the first `n` fails to fit, each of them fits.
proof fn lemma_no_mismatch(type_: ArrowTypeView, values: Seq<ValueView>, n: int, i: int)
    requires
        0 <= i < n,
        first_mismatch(type_, values, n) is None,
    ensures
        cell_of(type_, values[i]) is Some,
    decreases n,
{
    if i < n - 1 {
        lemma_no_mismatch(type_, values, n - 1, i);
    }
}

/// The content of each column of a buffer, in order.
pub open spec fn columns_view(columns: Seq<Vec<Value>>) -> Seq<Seq<ValueView>> {
    Seq::new(columns.len(), |i: int| values_view(columns[i]@))
}

/// The state of a writer to a columnar table.
pub struct DeltaTableWriterView {
    pub schema: Seq<SchemaFieldView>,
    /// The buffered values, column by column.
    pub buffered_columns: Seq<Seq<ValueView>>,
    /// The least time between two commits, in milliseconds.
    pub min_commit_frequency: Option<u64>,
    /// The reading of the clock from which the time to the next commit is
    /// measured, in milliseconds.
    pub last_commit_at: u64,
}

/// What a column holds once a record is buffered: what it held, then the
/// value of the record for the column if the record has one, then the
/// commit time if the column is the last but one, then the sign if the
/// column is the last.
pub open spec fn column_after_write(
    columns: Seq<Seq<ValueView>>,
    data: FormatterContextView,
    c: int,
) -> Seq<ValueView> {
    columns[c] + (if c < data.values.len() {
        seq![data.values[c]]
    } else {
        seq![]
    }) + (if c == columns.len() - 2 {
        seq![ValueView::Int(data.time as i64)]
    } else {
        seq![]
    }) + (if c == columns.len() - 1 {
        seq![ValueView::Int(data.diff as i64)]
    } else {
        seq![]
    })
}

/// Buffers records column by column and commits them to a columnar table.
#[derive(Debug)]
pub struct DeltaTableWriter {
    schema: Vec<SchemaField>,
    buffered_columns: Vec<Vec<Value>>,
    min_commit_frequency: Option<u64>,
    last_commit_at: u64,
}

impl View for DeltaTableWriter {
    type V = DeltaTableWriterView;

    closed spec fn view(&self) -> DeltaTableWriterView {
        DeltaTableWriterView {
            schema: schema_view(self.schema@),
            buffered_columns: columns_view(self.buffered_columns@),
            min_commit_frequency: self.min_commit_frequency,
            last_commit_at: self.last_commit_at,
        }
    }
}

/// The place of the first value of the column `c` that does not fit the
/// type of the column.
pub open spec fn column_mismatch(w: DeltaTableWriterView, c: int) -> Option<int> {
    first_mismatch(
        w.schema[c].data_type,
        w.buffered_columns[c],
        w.buffered_columns[c].len() as int,
    )
}

/// The state has a column for each field of the schema, the last two of
/// which are the commit time and the sign.
pub open spec fn writer_wf(w: DeltaTableWriterView) -> bool {
    &&& w.buffered_columns.len() == w.schema.len()
    &&& w.schema.len() >= 2
}

impl DeltaTableWriter {
    /// The columnar type that holds the values of `type_`.
    pub fn arrow_data_type(type_: Type) -> (r: Result<ArrowType, WriteError>)
        ensures
            match r {
                Ok(arrow) => arrow_type_of(type_) == Some(arrow@),
                Err(e) => arrow_type_of(type_) is None && e == WriteError::UnsupportedType(type_),
            },
    {
        match type_ {
            Type::Bool => Ok(ArrowType::Boolean),
            Type::Int => Ok(ArrowType::Int64),
            Type::Duration => Ok(ArrowType::Int64),
            Type::Float => Ok(ArrowType::Float64),
            Type::Pointer => Ok(ArrowType::Utf8),
            Type::String => Ok(ArrowType::Utf8),
            Type::Json => Ok(ArrowType::Utf8),
            Type::Bytes => Ok(ArrowType::Binary),
            Type::DateTimeNaive => Ok(ArrowType::TimestampMicrosecond { timezone: None }),
            Type::DateTimeUtc => Ok(
                ArrowType::TimestampMicrosecond { timezone: Some("UTC".to_owned()) },
            ),
            Type::Any => Err(WriteError::UnsupportedType(type_)),
            Type::Array => Err(WriteError::UnsupportedType(type_)),
            Type::Tuple => Err(WriteError::UnsupportedType(type_)),
            Type::PyObjectWrapper => Err(WriteError::UnsupportedType(type_)),
        }
    }

    /// The type of the table format that holds the values of `type_`.
    pub fn delta_table_primitive_type(type_: Type) -> (r: Result<DeltaPrimitiveType, WriteError>)
        ensures
            match r {
                Ok(primitive) => delta_type_of(type_) == Some(primitive),
                Err(e) => delta_type_of(type_) is None && e == WriteError::UnsupportedType(type_),
            },
    {
        match type_ {
            Type::Bool => Ok(DeltaPrimitiveType::Boolean),
            Type::Float => Ok(DeltaPrimitiveType::Double),
            Type::Pointer => Ok(DeltaPrimitiveType::String),
            Type::String => Ok(DeltaPrimitiveType::String),
            Type::Json => Ok(DeltaPrimitiveType::String),
            Type::Bytes => Ok(DeltaPrimitiveType::Binary),
            Type::DateTimeNaive => Ok(DeltaPrimitiveType::TimestampNtz),
            Type::DateTimeUtc => Ok(DeltaPrimitiveType::Timestamp),
            Type::Int => Ok(DeltaPrimitiveType::Long),
            Type::Duration => Ok(DeltaPrimitiveType::Long),
            Type::Any => Err(WriteError::UnsupportedType(type_)),
            Type::Array => Err(WriteError::UnsupportedType(type_)),
            Type::Tuple => Err(WriteError::UnsupportedType(type_)),
            Type::PyObjectWrapper => Err(WriteError::UnsupportedType(type_)),
        }
    }

    /// The schema of the data that is buffered for the declared columns. A
    /// declaration with a column whose type the table cannot hold is refused,
    /// for the first such column.
    pub fn construct_schema(value_fields: &Vec<ValueField>) -> (r: Result<Vec<SchemaField>, WriteError>)
        ensures
            match r {
                Ok(schema) => first_unsupported(value_fields@, value_fields.len() as int) is None
                    && schema_view(schema@) == schema_of(value_fields@),
                Err(e) => first_unsupported(value_fields@, value_fields.len() as int) matches Some(i)
                    && e == WriteError::UnsupportedType(value_fields[i].type_),
            },
    {
        let mut schema_fields: Vec<SchemaField> = Vec::new();
        let mut i: usize = 0;
        while i < value_fields.len()
            invariant
                i <= value_fields.len(),
                first_unsupported(value_fields@, i as int) is None,
                schema_fields.len() == i,
                forall|j: int|
                    0 <= j < i ==> (#[trigger] schema_fields[j])@ == (SchemaFieldView {
                        name: value_fields[j].name@,
                        data_type: arrow_type_of(value_fields[j].type_).unwrap(),
                        nullable: value_fields[j].is_optional,
                    }),
            decreases value_fields.len() - i,
        {
            let field = &value_fields[i];
            match Self::arrow_data_type(field.type_) {
                Ok(data_type) => {
                    schema_fields.push(
                        SchemaField { name: field.name.clone(), data_type, nullable: field.is_optional },
                    );
                },
                Err(e) => {
                    proof {
                        lemma_first_unsupported_found(
                            value_fields@,
                            i as int,
                            value_fields.len() as int,
                        );
                    }
                    return Err(e);
                },
            }
            i += 1;
        }
        schema_fields.push(
            SchemaField { name: "time".to_owned(), data_type: ArrowType::Int64, nullable: false },
        );
        schema_fields.push(
            SchemaField { name: "diff".to_owned(), data_type: ArrowType::Int64, nullable: false },
        );
        assert(schema_view(schema_fields@) =~= schema_of(value_fields@));
        Ok(schema_fields)
    }

    /// The columns with which the table is created: one for each declared
    /// column, followed by the commit time and the sign of each record. A
    /// declaration with a column whose type the table cannot hold is refused,
    /// for the first such column.
    pub fn table_columns(schema_fields: &Vec<ValueField>) -> (r: Result<Vec<TableColumn>, WriteError>)
        ensures
            match r {
                Ok(columns) => {
                    &&& first_unsupported(schema_fields@, schema_fields.len() as int) is None
                    &&& columns.len() == schema_fields.len() + 2
                    &&& forall|j: int|
                        0 <= j < schema_fields.len() ==> (#[trigger] columns[j]).name@
                            == schema_fields[j].name@ && Some(columns[j].data_type) == delta_type_of(
                            schema_fields[j].type_,
                        ) && columns[j].nullable == schema_fields[j].is_optional
                    &&& columns[schema_fields.len() as int].name@ == "time"@
                    &&& columns[schema_fields.len() as int].data_type == DeltaPrimitiveType::Long
                    &&& !columns[schema_fields.len() as int].nullable
                    &&& columns[schema_fields.len() + 1].name@ == "diff"@
                    &&& columns[schema_fields.len() + 1].data_type == DeltaPrimitiveType::Long
                    &&& !columns[schema_fields.len() + 1].nullable
                },
                Err(e) => first_unsupported(schema_fields@, schema_fields.len() as int) matches Some(i)
                    && e == WriteError::UnsupportedType(schema_fields[i].type_),
            },
    {
        let mut struct_fields: Vec<TableColumn> = Vec::new();
        let mut i: usize = 0;
        while i < schema_fields.len()
            invariant
                i <= schema_fields.len(),
                first_unsupported(schema_fields@, i as int) is None,
                struct_fields.len() == i,
                forall|j: int|
                    0 <= j < i ==> (#[trigger] struct_fields[j]).name@ == schema_fields[j].name@
                        && Some(struct_fields[j].data_type) == delta_type_of(schema_fields[j].type_)
                        && struct_fields[j].nullable == schema_fields[j].is_optional,
            decreases schema_fields.len() - i,
        {
            let field = &schema_fields[i];
            match Self::delta_table_primitive_type(field.type_) {
                Ok(data_type) => {
                    struct_fields.push(
                        TableColumn { name: field.name.clone(), data_type, nullable: field.is_optional },
                    );
                },
                Err(e) => {
                    proof {
                        lemma_first_unsupported_found(
                            schema_fields@,
                            i as int,
                            schema_fields.len() as int,
                        );
                    }
                    return Err(e);
                },
            }
            i += 1;
        }
        struct_fields.push(
            TableColumn { name: "time".to_owned(), data_type: DeltaPrimitiveType::Long, nullable: false },
        );
        struct_fields.push(
            TableColumn { name: "diff".to_owned(), data_type: DeltaPrimitiveType::Long, nullable: false },
        );
        Ok(struct_fields)
    }

    /// Brings a column to the type of the schema, element by element. A column
    /// with a value that does not fit the type is refused, for the first such
    /// value.
    pub fn arrow_array_for_type(type_: &ArrowType, values: &Vec<Value>) -> (r: Result<
        Vec<Option<ArrowCell>>,
        WriteError,
    >)
        ensures
            match r {
                Ok(cells) => {
                    &&& first_mismatch(type_@, values_view(values@), values.len() as int) is None
                    &&& cells.len() == values.len()
                    &&& forall|i: int|
                        0 <= i < cells.len() ==> cell_of(type_@, values_view(values@)[i]) == Some(
                            optional_cell_view(#[trigger] cells[i]),
                        )
                },
                Err(e) => {
                    &&& first_mismatch(type_@, values_view(values@), values.len() as int) matches Some(
                        i,
                    )
                    &&& 0 <= i < values.len()
                    &&& e matches WriteError::TypeMismatchWithSchema(value, expected)
                    &&& value@ == values_view(values@)[i]
                    &&& expected@ == type_@
                },
            },
    {
        let mut cells: Vec<Option<ArrowCell>> = Vec::new();
        let mut i: usize = 0;
        while i < values.len()
            invariant
                i <= values.len(),
                cells.len() == i,
                first_mismatch(type_@, values_view(values@), i as int) is None,
                forall|j: int|
                    0 <= j < i ==> cell_of(type_@, values_view(values@)[j]) == Some(
                        optional_cell_view(#[trigger] cells[j]),
                    ),
            decreases values.len() - i,
        {
            assert(values_view(values@)[i as int] == values[i as int]@);
            match coerce(type_, &values[i]) {
                Some(cell) => {
                    cells.push(cell);
                },
                None => {
                    proof {
                        lemma_first_mismatch_found(
                            type_@,
                            values_view(values@),
                            i as int,
                            values.len() as int,
                        );
                    }
                    return Err(
                        WriteError::TypeMismatchWithSchema(values[i].clone(), type_.duplicate()),
                    );
                },
            }
            i += 1;
        }
        Ok(cells)
    }

    /// A writer for the declared columns with empty buffers. The time to the
    /// first commit is measured from `now`. A declaration with a column
    /// whose type the table cannot hold is refused.
    pub fn new(value_fields: &Vec<ValueField>, min_commit_frequency: Option<u64>, now: u64) -> (r:
        Result<DeltaTableWriter, WriteError>)
        ensures
            match r {
                Ok(writer) => {
                    &&& first_unsupported(value_fields@, value_fields.len() as int) is None
                    &&& writer_wf(writer@)
                    &&& writer@.schema == schema_of(value_fields@)
                    &&& forall|c: int|
                        0 <= c < writer@.buffered_columns.len()
                            ==> #[trigger] writer@.buffered_columns[c] == Seq::<ValueView>::empty()
                    &&& writer@.min_commit_frequency == min_commit_frequency
                    &&& writer@.last_commit_at == now
                },
                Err(e) => first_unsupported(value_fields@, value_fields.len() as int) matches Some(
                    i,
                ) && e == WriteError::UnsupportedType(value_fields[i].type_),
            },
    {
        let schema = match Self::construct_schema(value_fields) {
            Ok(schema) => schema,
            Err(e) => {
                return Err(e);
            },
        };
        let mut empty_buffered_columns: Vec<Vec<Value>> = Vec::new();
        let mut i: usize = 0;
        while i < schema.len()
            invariant
                i <= schema.len(),
                empty_buffered_columns.len() == i,
                forall|c: int| 0 <= c < i ==> (#[trigger] empty_buffered_columns[c])@.len() == 0,
            decreases schema.len() - i,
        {
            empty_buffered_columns.push(Vec::new());
            i += 1;
        }
        let writer = DeltaTableWriter {
            schema,
            buffered_columns: empty_buffered_columns,
            min_commit_frequency,
            last_commit_at: now,
        };
        proof {
            assert forall|c: int| 0 <= c < writer@.buffered_columns.len() implies
                #[trigger] writer@.buffered_columns[c] == Seq::<ValueView>::empty() by {
                assert(writer.buffered_columns[c]@.len() == 0);
                assert(writer@.buffered_columns[c] =~= Seq::<ValueView>::empty());
            }
        }
        Ok(writer)
    }

    /// The schema of the buffered data.
    pub fn schema(&self) -> (r: &Vec<SchemaField>)
        ensures
            schema_view(r@) == self@.schema,
    {
        &self.schema
    }

    /// Whether a record can be buffered: it has no more values than there
    /// are columns, and its commit time is a number that a column holds.
    pub fn accepts(&self, data: &FormatterContext) -> (r: bool)
        ensures
            r == (data@.values.len() <= self@.buffered_columns.len() && data@.time <= i64::MAX),
    {
        data.values.len() <= self.buffered_columns.len() && data.time <= 9223372036854775807u64
    }

    /// Buffers a record: each of its values goes to the column of its
    /// place, its commit time to the last column but one, and its sign to
    /// the last column.
    pub fn write(&mut self, data: FormatterContext)
        requires
            writer_wf(old(self)@),
            data@.values.len() <= old(self)@.buffered_columns.len(),
            data@.time <= i64::MAX,
        ensures
            writer_wf(final(self)@),
            final(self)@.schema == old(self)@.schema,
            final(self)@.min_commit_frequency == old(self)@.min_commit_frequency,
            final(self)@.last_commit_at == old(self)@.last_commit_at,
            final(self)@.buffered_columns.len() == old(self)@.buffered_columns.len(),
            forall|c: int|
                0 <= c < old(self)@.buffered_columns.len()
                    ==> #[trigger] final(self)@.buffered_columns[c] == column_after_write(
                    old(self)@.buffered_columns,
                    data@,
                    c,
                ),
    {
        let ghost start = self@.buffered_columns;
        let ghost content = data@;
        let FormatterContext { payloads: _, key: _, values, time, diff } = data;
        let count = self.buffered_columns.len();
        let mut index: usize = 0;
        while index < values.len()
            invariant
                index <= values.len(),
                values.len() <= count,
                count == self.buffered_columns.len(),
                count == start.len(),
                values_view(values@) == content.values,
                self.schema == old(self).schema,
                self.min_commit_frequency == old(self).min_commit_frequency,
                self.last_commit_at == old(self).last_commit_at,
                forall|c: int|
                    0 <= c < count ==> #[trigger] columns_view(self.buffered_columns@)[c] == start[c]
                        + (if c < index {
                        seq![content.values[c]]
                    } else {
                        seq![]
                    }),
            decreases values.len() - index,
        {
            let ghost before = columns_view(self.buffered_columns@);
            let value = values[index].clone();
            assert(content.values[index as int] == values[index as int]@);
            let mut column: Vec<Value> = Vec::new();
            core::mem::swap(&mut column, &mut self.buffered_columns[index]);
            column.push(value);
            core::mem::swap(&mut column, &mut self.buffered_columns[index]);
            proof {
                assert forall|c: int| 0 <= c < count implies #[trigger] columns_view(
                    self.buffered_columns@,
                )[c] == start[c] + (if c < index + 1 {
                    seq![content.values[c]]
                } else {
                    seq![]
                }) by {
                    if c == index {
                        assert(columns_view(self.buffered_columns@)[c] =~= before[c].push(
                            content.values[c],
                        ));
                        assert(before[c] == start[c] + Seq::<ValueView>::empty());
                        assert(columns_view(self.buffered_columns@)[c] =~= start[c]
                            + seq![content.values[c]]);
                    } else {
                        assert(columns_view(self.buffered_columns@)[c] == before[c]);
                    }
                }
            }
            index += 1;
        }
        let time_column_idx = count - 2;
        let diff_column_idx = count - 1;
        let ghost middle = columns_view(self.buffered_columns@);
        let mut column: Vec<Value> = Vec::new();
        core::mem::swap(&mut column, &mut self.buffered_columns[time_column_idx]);
        column.push(Value::Int(time as i64));
        core::mem::swap(&mut column, &mut self.buffered_columns[time_column_idx]);
        let ghost later = columns_view(self.buffered_columns@);
        assert(later[time_column_idx as int] =~= middle[time_column_idx as int].push(
            ValueView::Int(time as i64),
        ));
        let mut column: Vec<Value> = Vec::new();
        core::mem::swap(&mut column, &mut self.buffered_columns[diff_column_idx]);
        column.push(Value::Int(diff as i64));
        core::mem::swap(&mut column, &mut self.buffered_columns[diff_column_idx]);
        proof {
            let last = columns_view(self.buffered_columns@);
            assert(last[diff_column_idx as int] =~= later[diff_column_idx as int].push(
                ValueView::Int(diff as i64),
            ));
            assert forall|c: int| 0 <= c < count implies #[trigger] last[c] == column_after_write(
                start,
                content,
                c,
            ) by {
                if c != diff_column_idx {
                    assert(last[c] == later[c]);
                }
                if c != time_column_idx {
                    assert(later[c] == middle[c]);
                }
                assert(middle[c] == start[c] + (if c < content.values.len() {
                    seq![content.values[c]]
                } else {
                    seq![]
                }));
                assert(last[c] =~= column_after_write(start, content, c));
            }
        }
    }

    /// Whether a commit is due at the clock reading `now`: something is
    /// buffered, and the commit is forced or the least time between two
    /// commits has passed.
    pub fn commit_needed(&self, forced: bool, now: u64) -> (r: bool)
        requires
            writer_wf(self@),
        ensures
            r == (self@.buffered_columns[0].len() > 0 && (forced || match self@.min_commit_frequency {
                Some(frequency) => now >= self@.last_commit_at && now - self@.last_commit_at
                    >= frequency || frequency == 0,
                None => true,
            })),
    {
        assert(self@.buffered_columns[0].len() == self.buffered_columns[0]@.len());
        let elapsed: u64 = if now >= self.last_commit_at {
            now - self.last_commit_at
        } else {
            0
        };
        let due = match self.min_commit_frequency {
            Some(frequency) => elapsed >= frequency,
            None => true,
        };
        self.buffered_columns[0].len() > 0 && (due || forced)
    }

    /// Brings every buffered column to the type of its field of the schema.
    /// The batch fails on the first column with a value that does not fit
    /// the type of the column, for the first such value.
    pub fn prepare_delta_batch(&self) -> (r: Result<Vec<Vec<Option<ArrowCell>>>, WriteError>)
        requires
            writer_wf(self@),
        ensures
            match r {
                Ok(columns) => {
                    &&& columns.len() == self@.buffered_columns.len()
                    &&& forall|c: int|
                        0 <= c < columns.len() ==> (#[trigger] column_mismatch(self@, c)) is None
                            && columns[c].len() == self@.buffered_columns[c].len()
                    &&& forall|c: int, i: int|
                        0 <= c < columns.len() && 0 <= i < self@.buffered_columns[c].len()
                            ==> cell_of(self@.schema[c].data_type, self@.buffered_columns[c][i])
                            == Some(optional_cell_view(#[trigger] columns[c][i]))
                },
                Err(e) => exists|c: int|
                    {
                        &&& 0 <= c < self@.buffered_columns.len()
                        &&& forall|before: int|
                            0 <= before < c ==> column_mismatch(self@, before) is None
                        &&& #[trigger] column_mismatch(self@, c) matches Some(i)
                        &&& 0 <= i < self@.buffered_columns[c].len()
                        &&& e matches WriteError::TypeMismatchWithSchema(value, expected)
                        &&& value@ == self@.buffered_columns[c][i]
                        &&& expected@ == self@.schema[c].data_type
                    },
            },
    {
        let mut data_columns: Vec<Vec<Option<ArrowCell>>> = Vec::new();
        let mut index: usize = 0;
        while index < self.buffered_columns.len()
            invariant
                index <= self.buffered_columns.len(),
                writer_wf(self@),
                data_columns.len() == index,
                forall|c: int|
                    0 <= c < index ==> (#[trigger] column_mismatch(self@, c)) is None
                        && data_columns[c].len() == self@.buffered_columns[c].len(),
                forall|c: int, i: int|
                    0 <= c < index && 0 <= i < self@.buffered_columns[c].len() ==> cell_of(
                        self@.schema[c].data_type,
                        self@.buffered_columns[c][i],
                    ) == Some(optional_cell_view(#[trigger] data_columns[c][i])),
            decreases self.buffered_columns.len() - index,
        {
            assert(self@.schema[index as int] == self.schema[index as int]@);
            assert(self@.buffered_columns[index as int] == values_view(
                self.buffered_columns[index as int]@,
            ));
            match Self::arrow_array_for_type(
                &self.schema[index].data_type,
                &self.buffered_columns[index],
            ) {
                Ok(cells) => {
                    assert(column_mismatch(self@, index as int) is None);
                    data_columns.push(cells);
                },
                Err(e) => {
                    assert(column_mismatch(self@, index as int) is Some);
                    return Err(e);
                },
            }
            index += 1;
        }
        Ok(data_columns)
    }

    /// Notes that the buffered columns have been committed: the buffers are
    /// emptied.
    pub fn on_committed(&mut self)
        requires
            writer_wf(old(self)@),
        ensures
            writer_wf(final(self)@),
            final(self)@.schema == old(self)@.schema,
            final(self)@.min_commit_frequency == old(self)@.min_commit_frequency,
            final(self)@.last_commit_at == old(self)@.last_commit_at,
            final(self)@.buffered_columns.len() == old(self)@.buffered_columns.len(),
            forall|c: int|
                0 <= c < final(self)@.buffered_columns.len()
                    ==> #[trigger] final(self)@.buffered_columns[c] == Seq::<ValueView>::empty(),
    {
        let count = self.buffered_columns.len();
        let mut index: usize = 0;
        while index < count
            invariant
                index <= count,
                count == self.buffered_columns.len(),
                self.schema == old(self).schema,
                self.min_commit_frequency == old(self).min_commit_frequency,
                self.last_commit_at == old(self).last_commit_at,
                forall|c: int| 0 <= c < index ==> (#[trigger] self.buffered_columns[c])@.len() == 0,
            decreases count - index,
        {
            let mut column: Vec<Value> = Vec::new();
            core::mem::swap(&mut column, &mut self.buffered_columns[index]);
            index += 1;
        }
        proof {
            assert forall|c: int| 0 <= c < self@.buffered_columns.len() implies
                #[trigger] self@.buffered_columns[c] == Seq::<ValueView>::empty() by {
                assert(self.buffered_columns[c]@.len() == 0);
                assert(self@.buffered_columns[c] =~= Seq::<ValueView>::empty());
            }
        }
    }

    /// Whether a failed write may be tried again.
    pub fn retriable(&self) -> (r: bool)
        ensures
            !r,
    {
        false
    }

    /// Whether writes must come from one thread.
    pub fn single_threaded(&self) -> (r: bool)
        ensures
            r,
    {
        true
    }
}

} // verus!
