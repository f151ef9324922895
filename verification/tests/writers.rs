use pathway_connectors::delta::{
    microseconds, ArrowCell, DeltaPrimitiveType, DeltaTableWriter, ValueField,
};
use pathway_connectors::elasticsearch::ElasticSearchWriter;
use pathway_connectors::naming::{last_segment_of, reader_name, strip_builder, writer_name};
use pathway_connectors::pipe::{ReaderType, WriterType};
use pathway_connectors::psql::{targets_of, type_name_of, PsqlWriter, SqlEncoding, SqlTarget};
use pathway_connectors::value::{Type, Value};
use pathway_connectors::writer::{ArrowType, FileWriter, FormatterContext, NullWriter, WriteError};

fn context(payloads: Vec<&[u8]>, values: Vec<Value>) -> FormatterContext {
    FormatterContext {
        payloads: payloads.into_iter().map(|p| p.to_vec()).collect(),
        key: 1,
        values,
        time: 10,
        diff: 1,
    }
}

fn field(name: &str, type_: Type, is_optional: bool) -> ValueField {
    ValueField { name: name.to_string(), type_, is_optional }
}

fn utc() -> ArrowType {
    ArrowType::TimestampMicrosecond { timezone: Some("UTC".to_string()) }
}

fn naive() -> ArrowType {
    ArrowType::TimestampMicrosecond { timezone: None }
}

#[test]
fn the_null_writer_takes_everything() {
    let mut writer = NullWriter::new();
    assert_eq!(writer.write(context(vec![b"x"], vec![])), Ok(()));
    assert_eq!(writer.flush(true), Ok(()));
    assert!(!writer.single_threaded());
    assert!(!writer.retriable());
}

#[test]
fn the_file_writer_ends_each_payload_with_a_line_feed() {
    let mut writer = FileWriter::new();
    assert_eq!(writer.write(&context(vec![b"ab", b"", b"c"], vec![])), b"ab\n\nc\n".to_vec());
    assert_eq!(writer.write(&context(vec![], vec![])), Vec::<u8>::new());
    assert!(writer.single_threaded());
    assert!(!writer.retriable());
}

#[test]
fn the_row_store_writer_flushes_at_the_batch_size() {
    let mut writer = PsqlWriter::new(Some(2), true);
    assert!(writer.single_threaded());
    assert!(!writer.retriable());
    assert!(!writer.write(context(vec![b"INSERT 1"], vec![Value::Int(1)])));
    assert!(writer.write(context(vec![b"INSERT 2", b"INSERT 3"], vec![Value::Int(2)])));
    assert_eq!(writer.buffered(), 2);
    let batch = writer.flush();
    assert!(!batch.malformed);
    let sent: Vec<(String, Vec<Value>)> =
        batch.statements.into_iter().map(|s| (s.query, s.values)).collect();
    assert_eq!(
        sent,
        vec![
            ("INSERT 1".to_string(), vec![Value::Int(1)]),
            ("INSERT 2".to_string(), vec![Value::Int(2)]),
            ("INSERT 3".to_string(), vec![Value::Int(2)]),
        ]
    );
    assert_eq!(writer.buffered(), 0);
    let batch = writer.flush();
    assert!(batch.statements.is_empty());
    assert!(!batch.malformed);

    let mut unbounded = PsqlWriter::new(None, false);
    assert!(!unbounded.single_threaded());
    for _ in 0..5 {
        assert!(!unbounded.write(context(vec![b"q"], vec![])));
    }
    assert_eq!(unbounded.buffered(), 5);
}

#[test]
fn a_payload_that_is_no_text_ends_the_batch() {
    let mut writer = PsqlWriter::new(None, false);
    writer.write(context(vec![b"good", &[0xff, 0xfe], b"after"], vec![]));
    writer.write(context(vec![b"later"], vec![]));
    let batch = writer.flush();
    assert!(batch.malformed);
    assert_eq!(batch.statements.len(), 1);
    assert_eq!(batch.statements[0].query, "good");
    assert_eq!(writer.buffered(), 0);
}

#[test]
fn a_value_goes_into_a_column_in_the_first_form_that_the_column_takes() {
    let int = Value::Int(70000);
    assert_eq!(
        targets_of(&int),
        vec![
            SqlTarget::BigInt,
            SqlTarget::Integer,
            SqlTarget::SmallInt,
            SqlTarget::TinyInt,
            SqlTarget::Double,
            SqlTarget::Real
        ]
    );
    let only = |place: usize| (0..6).map(|i| i == place).collect::<Vec<bool>>();
    assert_eq!(int.to_sql(&only(0)), SqlEncoding::Forward(SqlTarget::BigInt));
    assert_eq!(int.to_sql(&only(1)), SqlEncoding::Forward(SqlTarget::Integer));
    assert_eq!(int.to_sql(&only(2)), SqlEncoding::OutOfRange(SqlTarget::SmallInt));
    assert_eq!(int.to_sql(&only(3)), SqlEncoding::OutOfRange(SqlTarget::TinyInt));
    assert_eq!(int.to_sql(&only(4)), SqlEncoding::Forward(SqlTarget::Double));
    assert_eq!(int.to_sql(&vec![false; 6]), SqlEncoding::WrongType("int".to_string()));
    assert_eq!(int.to_sql(&vec![true; 6]), SqlEncoding::Forward(SqlTarget::BigInt));
    let mut small_first = vec![false, false, true, false, true, true];
    assert_eq!(Value::Int(32767).to_sql(&small_first), SqlEncoding::Forward(SqlTarget::SmallInt));
    assert_eq!(Value::Int(-32768).to_sql(&small_first), SqlEncoding::Forward(SqlTarget::SmallInt));
    assert_eq!(
        Value::Int(32768).to_sql(&small_first),
        SqlEncoding::OutOfRange(SqlTarget::SmallInt)
    );
    small_first[2] = false;
    small_first[3] = true;
    assert_eq!(Value::Int(127).to_sql(&small_first), SqlEncoding::Forward(SqlTarget::TinyInt));
    assert_eq!(Value::Int(-129).to_sql(&small_first), SqlEncoding::OutOfRange(SqlTarget::TinyInt));
    assert_eq!(
        Value::Int(i64::from(i32::MAX) + 1).to_sql(&only(1)),
        SqlEncoding::OutOfRange(SqlTarget::Integer)
    );
    assert_eq!(
        Value::Int(i64::from(i32::MIN)).to_sql(&only(1)),
        SqlEncoding::Forward(SqlTarget::Integer)
    );
}

#[test]
fn each_kind_of_value_has_its_forms_and_its_name() {
    let cases: Vec<(Value, Vec<SqlTarget>, &str)> = vec![
        (Value::Null, vec![], "none"),
        (Value::Bool(true), vec![SqlTarget::Bool], "bool"),
        (Value::Float(0), vec![SqlTarget::Double, SqlTarget::Real], "float"),
        (Value::Pointer(1), vec![SqlTarget::OwnedText], "pointer"),
        (Value::String("s".to_string()), vec![SqlTarget::Text], "string"),
        (Value::Bytes(vec![]), vec![SqlTarget::ByteSlice], "bytes"),
        (Value::Tuple(vec![]), vec![SqlTarget::ValueSlice], "tuple"),
        (Value::IntArray(vec![0], vec![]), vec![], "int array"),
        (Value::FloatArray(vec![0], vec![]), vec![], "float array"),
        (Value::DateTimeNaive(0), vec![SqlTarget::NaiveDateTime], "naive date/time"),
        (Value::DateTimeUtc(0), vec![SqlTarget::UtcDateTime], "UTC date/time"),
        (Value::Duration(0), vec![], "duration"),
        (Value::Json("{}".to_string()), vec![SqlTarget::Json], "JSON"),
        (Value::Error, vec![], "error"),
        (Value::PyObjectWrapper(vec![]), vec![], "PyObjectWrapper"),
    ];
    for (value, targets, name) in cases {
        assert_eq!(targets_of(&value), targets);
        assert_eq!(type_name_of(&value), name);
        let refused = value.to_sql(&vec![false; targets.len()]);
        if value == Value::Null {
            assert_eq!(refused, SqlEncoding::Null);
        } else {
            assert_eq!(refused, SqlEncoding::WrongType(name.to_string()));
        }
    }
    assert_eq!(Value::Null.to_sql(&vec![]), SqlEncoding::Null);
    assert_eq!(
        Value::Float(1).to_sql(&vec![false, true]),
        SqlEncoding::Forward(SqlTarget::Real)
    );
}

#[test]
fn the_search_index_writer_builds_bulk_lines() {
    let mut writer = ElasticSearchWriter::new("docs".to_string(), Some(2));
    assert_eq!(writer.index_name(), "docs");
    assert!(!writer.single_threaded());
    assert!(!writer.retriable());
    assert!(writer.flush().is_none());
    assert!(!writer.write(&context(vec![b"{\"a\":1}"], vec![])));
    assert!(writer.write(&context(vec![b"{\"a\":2}", b"{\"a\":3}"], vec![])));
    let body = writer.flush().unwrap();
    let action = b"{\"index\": {}}".to_vec();
    assert_eq!(
        body,
        vec![
            action.clone(),
            b"{\"a\":1}".to_vec(),
            action.clone(),
            b"{\"a\":2}".to_vec(),
            action,
            b"{\"a\":3}".to_vec(),
        ]
    );
    assert!(writer.flush().is_none());
    let mut unbounded = ElasticSearchWriter::new("docs".to_string(), None);
    assert!(!unbounded.write(&context(vec![b"1", b"2", b"3"], vec![])));
    assert!(!ElasticSearchWriter::new("d".to_string(), Some(1)).write(&context(vec![], vec![])));
    assert!(ElasticSearchWriter::new("d".to_string(), Some(0)).write(&context(vec![], vec![])));
}

#[test]
fn declared_types_map_to_columnar_types() {
    assert_eq!(DeltaTableWriter::arrow_data_type(Type::Bool), Ok(ArrowType::Boolean));
    assert_eq!(DeltaTableWriter::arrow_data_type(Type::Int), Ok(ArrowType::Int64));
    assert_eq!(DeltaTableWriter::arrow_data_type(Type::Duration), Ok(ArrowType::Int64));
    assert_eq!(DeltaTableWriter::arrow_data_type(Type::Float), Ok(ArrowType::Float64));
    assert_eq!(DeltaTableWriter::arrow_data_type(Type::Pointer), Ok(ArrowType::Utf8));
    assert_eq!(DeltaTableWriter::arrow_data_type(Type::String), Ok(ArrowType::Utf8));
    assert_eq!(DeltaTableWriter::arrow_data_type(Type::Json), Ok(ArrowType::Utf8));
    assert_eq!(DeltaTableWriter::arrow_data_type(Type::Bytes), Ok(ArrowType::Binary));
    assert_eq!(DeltaTableWriter::arrow_data_type(Type::DateTimeNaive), Ok(naive()));
    assert_eq!(DeltaTableWriter::arrow_data_type(Type::DateTimeUtc), Ok(utc()));
    for unsupported in [Type::Any, Type::Array, Type::Tuple, Type::PyObjectWrapper] {
        assert_eq!(DeltaTableWriter::arrow_data_type(unsupported), Err(WriteError::UnsupportedType(unsupported)));
        assert_eq!(
            DeltaTableWriter::delta_table_primitive_type(unsupported),
            Err(WriteError::UnsupportedType(unsupported))
        );
    }
    assert_eq!(DeltaTableWriter::delta_table_primitive_type(Type::Bool), Ok(DeltaPrimitiveType::Boolean));
    assert_eq!(DeltaTableWriter::delta_table_primitive_type(Type::Float), Ok(DeltaPrimitiveType::Double));
    assert_eq!(DeltaTableWriter::delta_table_primitive_type(Type::Pointer), Ok(DeltaPrimitiveType::String));
    assert_eq!(DeltaTableWriter::delta_table_primitive_type(Type::String), Ok(DeltaPrimitiveType::String));
    assert_eq!(DeltaTableWriter::delta_table_primitive_type(Type::Json), Ok(DeltaPrimitiveType::String));
    assert_eq!(DeltaTableWriter::delta_table_primitive_type(Type::Bytes), Ok(DeltaPrimitiveType::Binary));
    assert_eq!(DeltaTableWriter::delta_table_primitive_type(Type::DateTimeNaive), Ok(DeltaPrimitiveType::TimestampNtz));
    assert_eq!(DeltaTableWriter::delta_table_primitive_type(Type::DateTimeUtc), Ok(DeltaPrimitiveType::Timestamp));
    assert_eq!(DeltaTableWriter::delta_table_primitive_type(Type::Int), Ok(DeltaPrimitiveType::Long));
    assert_eq!(DeltaTableWriter::delta_table_primitive_type(Type::Duration), Ok(DeltaPrimitiveType::Long));
}

#[test]
fn the_schema_ends_with_time_and_diff() {
    let fields = vec![field("flag", Type::Bool, false), field("when", Type::DateTimeUtc, true)];
    let schema = DeltaTableWriter::construct_schema(&fields).unwrap();
    let described: Vec<(String, ArrowType, bool)> =
        schema.into_iter().map(|f| (f.name, f.data_type, f.nullable)).collect();
    assert_eq!(
        described,
        vec![
            ("flag".to_string(), ArrowType::Boolean, false),
            ("when".to_string(), utc(), true),
            ("time".to_string(), ArrowType::Int64, false),
            ("diff".to_string(), ArrowType::Int64, false),
        ]
    );
    let columns = DeltaTableWriter::table_columns(&fields).unwrap();
    let described: Vec<(String, DeltaPrimitiveType, bool)> =
        columns.into_iter().map(|c| (c.name, c.data_type, c.nullable)).collect();
    assert_eq!(
        described,
        vec![
            ("flag".to_string(), DeltaPrimitiveType::Boolean, false),
            ("when".to_string(), DeltaPrimitiveType::Timestamp, true),
            ("time".to_string(), DeltaPrimitiveType::Long, false),
            ("diff".to_string(), DeltaPrimitiveType::Long, false),
        ]
    );
    let bad = vec![
        field("ok", Type::Int, false),
        field("t", Type::Tuple, false),
        field("a", Type::Any, false),
    ];
    assert_eq!(DeltaTableWriter::construct_schema(&bad).unwrap_err(), WriteError::UnsupportedType(Type::Tuple));
    assert_eq!(DeltaTableWriter::table_columns(&bad).unwrap_err(), WriteError::UnsupportedType(Type::Tuple));
    assert!(DeltaTableWriter::new(&bad, None, 0).is_err());
    assert_eq!(DeltaTableWriter::construct_schema(&vec![]).unwrap().len(), 2);
}

#[test]
fn microseconds_round_towards_zero() {
    assert_eq!(microseconds(0), 0);
    assert_eq!(microseconds(999), 0);
    assert_eq!(microseconds(1000), 1);
    assert_eq!(microseconds(1999), 1);
    assert_eq!(microseconds(-999), 0);
    assert_eq!(microseconds(-1000), -1);
    assert_eq!(microseconds(-1999), -1);
    assert_eq!(microseconds(i64::MAX), i64::MAX / 1000);
    assert_eq!(microseconds(i64::MIN), i64::MIN / 1000);
}

#[test]
fn columns_are_brought_to_the_type_of_the_schema() {
    assert_eq!(
        DeltaTableWriter::arrow_array_for_type(&ArrowType::Boolean, &vec![Value::Bool(true), Value::Null]),
        Ok(vec![Some(ArrowCell::Boolean(true)), None])
    );
    assert_eq!(
        DeltaTableWriter::arrow_array_for_type(&ArrowType::Int64, &vec![Value::Int(5), Value::Duration(-2500)]),
        Ok(vec![Some(ArrowCell::Int64(5)), Some(ArrowCell::Int64(-2))])
    );
    assert_eq!(
        DeltaTableWriter::arrow_array_for_type(&ArrowType::Float64, &vec![Value::Float(6.4f64.to_bits())]),
        Ok(vec![Some(ArrowCell::Float64(6.4f64.to_bits()))])
    );
    assert_eq!(
        DeltaTableWriter::arrow_array_for_type(
            &ArrowType::Utf8,
            &vec![
                Value::String("s".to_string()),
                Value::Pointer(77),
                Value::Json("{\"a\":1}".to_string())
            ]
        ),
        Ok(vec![
            Some(ArrowCell::Utf8("s".to_string())),
            Some(ArrowCell::Pointer(77)),
            Some(ArrowCell::Utf8("{\"a\":1}".to_string()))
        ])
    );
    assert_eq!(
        DeltaTableWriter::arrow_array_for_type(&ArrowType::Binary, &vec![Value::Bytes(vec![1, 2])]),
        Ok(vec![Some(ArrowCell::Binary(vec![1, 2]))])
    );
    assert_eq!(
        DeltaTableWriter::arrow_array_for_type(&naive(), &vec![Value::DateTimeNaive(3_000_500)]),
        Ok(vec![Some(ArrowCell::Timestamp(3000))])
    );
    assert_eq!(
        DeltaTableWriter::arrow_array_for_type(&utc(), &vec![Value::DateTimeUtc(7_000)]),
        Ok(vec![Some(ArrowCell::Timestamp(7))])
    );
    assert_eq!(DeltaTableWriter::arrow_array_for_type(&utc(), &vec![]), Ok(vec![]));
}

#[test]
fn a_value_that_does_not_fit_its_column_is_reported_with_the_type() {
    assert_eq!(
        DeltaTableWriter::arrow_array_for_type(
            &ArrowType::Int64,
            &vec![Value::Int(1), Value::String("zzz".to_string()), Value::Bool(true)]
        ),
        Err(WriteError::TypeMismatchWithSchema(Value::String("zzz".to_string()), ArrowType::Int64))
    );
    assert_eq!(
        DeltaTableWriter::arrow_array_for_type(&naive(), &vec![Value::DateTimeUtc(1)]),
        Err(WriteError::TypeMismatchWithSchema(Value::DateTimeUtc(1), naive()))
    );
    assert_eq!(
        DeltaTableWriter::arrow_array_for_type(&utc(), &vec![Value::DateTimeNaive(1)]),
        Err(WriteError::TypeMismatchWithSchema(Value::DateTimeNaive(1), utc()))
    );
    assert!(DeltaTableWriter::arrow_array_for_type(&ArrowType::Boolean, &vec![Value::Int(1)]).is_err());
    assert!(DeltaTableWriter::arrow_array_for_type(&ArrowType::Float64, &vec![Value::Int(1)]).is_err());
    assert!(DeltaTableWriter::arrow_array_for_type(&ArrowType::Utf8, &vec![Value::Bytes(vec![])]).is_err());
    assert!(DeltaTableWriter::arrow_array_for_type(&ArrowType::Binary, &vec![Value::String(String::new())]).is_err());
}

#[test]
fn the_table_writer_buffers_by_column_and_commits_when_due() {
    let fields = vec![field("n", Type::Int, false), field("s", Type::String, true)];
    let mut writer = DeltaTableWriter::new(&fields, Some(100), 1000).unwrap();
    assert_eq!(writer.schema().len(), 4);
    assert!(writer.single_threaded());
    assert!(!writer.retriable());
    assert!(!writer.commit_needed(true, 5000));

    let mut data = context(vec![], vec![Value::Int(5), Value::Null]);
    data.time = 77;
    data.diff = -1;
    assert!(writer.accepts(&data));
    writer.write(data);
    assert!(!writer.commit_needed(false, 1000));
    assert!(!writer.commit_needed(false, 1099));
    assert!(writer.commit_needed(false, 1100));
    assert!(writer.commit_needed(true, 1000));
    assert!(!writer.commit_needed(false, 0));

    let batch = writer.prepare_delta_batch().unwrap();
    assert_eq!(
        batch,
        vec![
            vec![Some(ArrowCell::Int64(5))],
            vec![None],
            vec![Some(ArrowCell::Int64(77))],
            vec![Some(ArrowCell::Int64(-1))],
        ]
    );
    writer.on_committed();
    assert!(!writer.commit_needed(true, 5000));
    assert_eq!(writer.prepare_delta_batch().unwrap(), vec![vec![], vec![], vec![], vec![]]);

    writer.write(context(vec![], vec![Value::String("no number".to_string()), Value::Null]));
    assert!(matches!(
        writer.prepare_delta_batch(),
        Err(WriteError::TypeMismatchWithSchema(Value::String(_), ArrowType::Int64))
    ));

    let too_many = context(vec![], vec![Value::Null; 5]);
    assert!(!writer.accepts(&too_many));
    let mut too_late = context(vec![], vec![]);
    too_late.time = u64::MAX;
    assert!(!writer.accepts(&too_late));

    let mut eager = DeltaTableWriter::new(&fields, None, 1000).unwrap();
    eager.write(context(vec![], vec![Value::Int(5), Value::Null]));
    assert!(eager.commit_needed(false, 1000));
}

#[test]
fn names_are_made_of_the_last_segment_and_an_id() {
    assert_eq!(last_segment_of("a::b::KafkaReader"), "KafkaReader");
    assert_eq!(last_segment_of("KafkaReader"), "KafkaReader");
    assert_eq!(last_segment_of("a::"), "");
    assert_eq!(last_segment_of(""), "");
    assert_eq!(last_segment_of("a:b"), "a:b");
    assert_eq!(last_segment_of("a:::b"), ":b");
    assert_eq!(strip_builder("PythonReaderBuilder"), "PythonReader");
    assert_eq!(strip_builder("BuilderBuilderX"), "X");
    assert_eq!(strip_builder("BuildBuilderer"), "Builder");
    assert_eq!(strip_builder("Build"), "Build");
    assert_eq!(
        reader_name("engine::connectors::PythonReaderBuilder", None, 3),
        "PythonReader-3"
    );
    assert_eq!(
        reader_name("engine::connectors::KafkaReader", Some("orders"), 3),
        "KafkaReader-orders"
    );
    assert_eq!(writer_name("engine::connectors::NullWriter", 0), "NullWriter-0");
    assert_eq!(writer_name("FileWriter", 12), "FileWriter-12");
}

#[test]
fn the_kinds_of_pipe_ends_are_told_apart() {
    let reader = ReaderType::Blocking;
    let copy = reader;
    assert_eq!(reader, copy);
    assert_ne!(ReaderType::Blocking, ReaderType::NonBlocking);
    assert_ne!(WriterType::Blocking, WriterType::NonBlocking);
    assert_eq!(format!("{:?}", WriterType::NonBlocking), "NonBlocking");
}
