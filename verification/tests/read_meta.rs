use std::io::Cursor;

use parquet2::metadata::SchemaDescriptor;
use parquet2::read::read_metadata;
use parquet2::schema::types::{
    IntegerType as FileIntegerType, ParquetType, PhysicalType as FilePhysicalType,
    PrimitiveLogicalType as FileLogicalType, TimeUnit as FileTimeUnit,
};
use parquet2::schema::Repetition;
use parquet2::write::FileWriter;
use qdbr::parquet_read::jni::{
    BOOLEAN, BYTE_ARRAY, DOUBLE, FIXED_LEN_BYTE_ARRAY, FLOAT, INT32, INT64, INT96,
};
use qdbr::parquet_read::{ColumnChunkBuffers, ColumnDescriptor, FileMetaData, ParquetDecoder};
use qdbr::parquet_write::schema::{column_type_to_parquet_type, ColumnType};
use qdbr::schema::{IntegerType, PhysicalType, PrimitiveLogicalType, TimeUnit};

fn descriptor(
    name: &str,
    physical_type: PhysicalType,
    logical_type: Option<PrimitiveLogicalType>,
) -> ColumnDescriptor {
    ColumnDescriptor { name: name.to_string(), id: None, physical_type, logical_type }
}

fn map(physical_type: PhysicalType, logical_type: Option<PrimitiveLogicalType>) -> Option<ColumnType> {
    ParquetDecoder::to_column_type(&descriptor("c", physical_type, logical_type))
}

fn timestamp(unit: TimeUnit, is_adjusted_to_utc: bool) -> Option<PrimitiveLogicalType> {
    Some(PrimitiveLogicalType::Timestamp { unit, is_adjusted_to_utc })
}

fn integer(integer_type: IntegerType) -> Option<PrimitiveLogicalType> {
    Some(PrimitiveLogicalType::Integer(integer_type))
}

fn written_column(name: &str, column_type: ColumnType) -> ColumnDescriptor {
    let (physical_type, logical_type) = column_type_to_parquet_type(column_type);
    descriptor(name, physical_type, logical_type)
}

fn to_storage_type(column_type: ColumnType) -> ColumnType {
    match column_type {
        ColumnType::GeoInt | ColumnType::IPv4 => ColumnType::Int,
        ColumnType::GeoShort => ColumnType::Short,
        ColumnType::GeoByte => ColumnType::Byte,
        ColumnType::GeoLong => ColumnType::Long,
        other => other,
    }
}

fn fixed_columns() -> Vec<(ColumnType, &'static str)> {
    vec![
        (ColumnType::Long128, "col_long128"),
        (ColumnType::Long256, "col_long256"),
        (ColumnType::Timestamp, "col_ts"),
        (ColumnType::Int, "col_int"),
        (ColumnType::Long, "col_long"),
        (ColumnType::Uuid, "col_uuid"),
        (ColumnType::Boolean, "col_bool"),
        (ColumnType::Date, "col_date"),
        (ColumnType::Byte, "col_byte"),
        (ColumnType::Short, "col_short"),
        (ColumnType::Double, "col_double"),
        (ColumnType::Float, "col_float"),
        (ColumnType::GeoInt, "col_geo_int"),
        (ColumnType::GeoShort, "col_geo_short"),
        (ColumnType::GeoByte, "col_geo_byte"),
        (ColumnType::GeoLong, "col_geo_long"),
        (ColumnType::IPv4, "col_geo_ipv4"),
    ]
}

#[test]
fn test_decode_column_type_fixed() {
    let row_count = 10;
    let cols = fixed_columns();
    let columns: Vec<ColumnDescriptor> =
        cols.iter().map(|(col_type, name)| written_column(name, *col_type)).collect();
    let column_count = columns.len();
    let metadata =
        FileMetaData { num_rows: row_count, num_row_groups: 1, num_fields: column_count, columns };

    let meta = ParquetDecoder::read(&metadata);

    assert_eq!(meta.columns.len(), column_count);
    assert_eq!(meta.row_count, row_count);

    for (i, col) in meta.columns.iter().enumerate() {
        let (col_type, name) = cols[i];
        assert_eq!(col.typ, to_storage_type(col_type));
        let actual_name: String = String::from_utf16(&col.name_vec).unwrap();
        assert_eq!(actual_name, name);
    }
}

#[test]
fn read_keeps_the_counts_of_the_footer() {
    let metadata = FileMetaData {
        num_rows: 1_000_000,
        num_row_groups: 12,
        num_fields: 2,
        columns: vec![
            descriptor("a", PhysicalType::Int32, None),
            descriptor("b", PhysicalType::Double, None),
        ],
    };
    let decoder = ParquetDecoder::read(&metadata);
    assert_eq!(decoder.col_count, 2);
    assert_eq!(decoder.row_count, 1_000_000);
    assert_eq!(decoder.row_group_count, 12);
    assert_eq!(decoder.columns.len(), 2);
    assert_eq!(decoder.column_buffers, vec![ColumnChunkBuffers::new(), ColumnChunkBuffers::new()]);
    assert_eq!(decoder.decompress_buffer, Vec::<u8>::new());
}

#[test]
fn read_of_an_empty_schema() {
    let metadata = FileMetaData { num_rows: 0, num_row_groups: 0, num_fields: 0, columns: vec![] };
    let decoder = ParquetDecoder::read(&metadata);
    assert_eq!(decoder.col_count, 0);
    assert!(decoder.columns.is_empty());
    assert!(decoder.column_buffers.is_empty());
}

#[test]
fn unsupported_columns_are_left_out() {
    let metadata = FileMetaData {
        num_rows: 3,
        num_row_groups: 1,
        num_fields: 5,
        columns: vec![
            descriptor("legacy_ts", PhysicalType::Int96, None),
            descriptor("a", PhysicalType::Int64, None),
            descriptor("json", PhysicalType::ByteArray, Some(PrimitiveLogicalType::Json)),
            descriptor("b", PhysicalType::ByteArray, Some(PrimitiveLogicalType::String)),
            descriptor("short_fixed", PhysicalType::FixedLenByteArray(8), None),
        ],
    };
    let decoder = ParquetDecoder::read(&metadata);
    // the count of the raw schema and the count of the columns kept differ
    assert_eq!(decoder.col_count, 5);
    assert_eq!(decoder.columns.len(), 2);
    assert_eq!(decoder.column_buffers.len(), 2);
    assert_eq!(decoder.columns[0].typ, ColumnType::Long);
    assert_eq!(String::from_utf16(&decoder.columns[0].name_vec).unwrap(), "a");
    assert_eq!(decoder.columns[1].typ, ColumnType::Varchar);
    assert_eq!(String::from_utf16(&decoder.columns[1].name_vec).unwrap(), "b");
}

#[test]
fn column_id_is_minus_one_where_absent() {
    let mut with_id = descriptor("a", PhysicalType::Boolean, None);
    with_id.id = Some(42);
    let without_id = descriptor("b", PhysicalType::Boolean, None);
    let mut negative_id = descriptor("c", PhysicalType::Boolean, None);
    negative_id.id = Some(-5);
    let metadata = FileMetaData {
        num_rows: 0,
        num_row_groups: 0,
        num_fields: 3,
        columns: vec![with_id, without_id, negative_id],
    };
    let decoder = ParquetDecoder::read(&metadata);
    assert_eq!(decoder.columns[0].id, 42);
    assert_eq!(decoder.columns[1].id, -1);
    assert_eq!(decoder.columns[2].id, -5);
}

#[test]
fn column_names_are_utf16() {
    let metadata = FileMetaData {
        num_rows: 0,
        num_row_groups: 0,
        num_fields: 2,
        columns: vec![
            descriptor("größe", PhysicalType::Float, None),
            descriptor("😀", PhysicalType::Float, None),
        ],
    };
    let decoder = ParquetDecoder::read(&metadata);
    assert_eq!(decoder.columns[0].name_vec, vec![0x67, 0x72, 0xF6, 0xDF, 0x65]);
    assert_eq!(decoder.columns[1].name_vec, vec![0xD83D, 0xDE00]);
}

#[test]
fn every_row_of_the_type_table() {
    assert_eq!(map(PhysicalType::Int64, timestamp(TimeUnit::Microseconds, true)), Some(ColumnType::Timestamp));
    assert_eq!(map(PhysicalType::Int64, timestamp(TimeUnit::Milliseconds, true)), Some(ColumnType::Date));
    assert_eq!(map(PhysicalType::Int64, None), Some(ColumnType::Long));
    assert_eq!(map(PhysicalType::Int64, integer(IntegerType::Int64)), Some(ColumnType::Long));
    assert_eq!(map(PhysicalType::Int32, None), Some(ColumnType::Int));
    assert_eq!(map(PhysicalType::Int32, integer(IntegerType::Int32)), Some(ColumnType::Int));
    assert_eq!(map(PhysicalType::Int32, integer(IntegerType::Int16)), Some(ColumnType::Short));
    assert_eq!(map(PhysicalType::Int32, integer(IntegerType::Int8)), Some(ColumnType::Byte));
    assert_eq!(map(PhysicalType::Boolean, None), Some(ColumnType::Boolean));
    assert_eq!(map(PhysicalType::Double, None), Some(ColumnType::Double));
    assert_eq!(map(PhysicalType::Float, None), Some(ColumnType::Float));
    assert_eq!(map(PhysicalType::FixedLenByteArray(16), Some(PrimitiveLogicalType::Uuid)), Some(ColumnType::Uuid));
    assert_eq!(map(PhysicalType::ByteArray, Some(PrimitiveLogicalType::String)), Some(ColumnType::Varchar));
    assert_eq!(map(PhysicalType::FixedLenByteArray(32), None), Some(ColumnType::Long256));
    assert_eq!(map(PhysicalType::ByteArray, None), Some(ColumnType::Binary));
    assert_eq!(map(PhysicalType::FixedLenByteArray(16), None), Some(ColumnType::Long128));
}

#[test]
fn int96_is_unsupported() {
    assert_eq!(map(PhysicalType::Int96, None), None);
}

#[test]
fn other_combinations_are_unsupported() {
    assert_eq!(map(PhysicalType::Int64, timestamp(TimeUnit::Nanoseconds, true)), None);
    assert_eq!(map(PhysicalType::Int64, timestamp(TimeUnit::Microseconds, false)), None);
    assert_eq!(map(PhysicalType::Int64, timestamp(TimeUnit::Milliseconds, false)), None);
    assert_eq!(map(PhysicalType::Int64, integer(IntegerType::Int32)), None);
    assert_eq!(map(PhysicalType::Int64, integer(IntegerType::UInt64)), None);
    assert_eq!(map(PhysicalType::Int64, Some(PrimitiveLogicalType::Decimal(18, 2))), None);
    assert_eq!(
        map(PhysicalType::Int64, Some(PrimitiveLogicalType::Time { unit: TimeUnit::Microseconds, is_adjusted_to_utc: true })),
        None
    );
    assert_eq!(map(PhysicalType::Int32, integer(IntegerType::Int64)), None);
    assert_eq!(map(PhysicalType::Int32, integer(IntegerType::UInt8)), None);
    assert_eq!(map(PhysicalType::Int32, integer(IntegerType::UInt16)), None);
    assert_eq!(map(PhysicalType::Int32, integer(IntegerType::UInt32)), None);
    assert_eq!(map(PhysicalType::Int32, Some(PrimitiveLogicalType::Date)), None);
    assert_eq!(map(PhysicalType::Int32, timestamp(TimeUnit::Milliseconds, true)), None);
    assert_eq!(map(PhysicalType::Boolean, Some(PrimitiveLogicalType::Unknown)), None);
    assert_eq!(map(PhysicalType::Double, Some(PrimitiveLogicalType::Unknown)), None);
    assert_eq!(map(PhysicalType::Float, integer(IntegerType::Int32)), None);
    assert_eq!(map(PhysicalType::ByteArray, Some(PrimitiveLogicalType::Json)), None);
    assert_eq!(map(PhysicalType::ByteArray, Some(PrimitiveLogicalType::Bson)), None);
    assert_eq!(map(PhysicalType::ByteArray, Some(PrimitiveLogicalType::Enum)), None);
    assert_eq!(map(PhysicalType::ByteArray, Some(PrimitiveLogicalType::Uuid)), None);
    assert_eq!(map(PhysicalType::FixedLenByteArray(32), Some(PrimitiveLogicalType::Uuid)), None);
    assert_eq!(map(PhysicalType::FixedLenByteArray(16), Some(PrimitiveLogicalType::String)), None);
    assert_eq!(map(PhysicalType::FixedLenByteArray(0), None), None);
    assert_eq!(map(PhysicalType::FixedLenByteArray(8), None), None);
    assert_eq!(map(PhysicalType::FixedLenByteArray(17), None), None);
    assert_eq!(map(PhysicalType::FixedLenByteArray(64), None), None);
    assert_eq!(map(PhysicalType::Int96, integer(IntegerType::Int64)), None);
}

#[test]
fn packed_tag_of_a_uuid_column() {
    let tag = ParquetDecoder::physical_type_tag(PhysicalType::FixedLenByteArray(16));
    assert_eq!(tag & 0xffff_ffff, FIXED_LEN_BYTE_ARRAY as i64);
    assert_eq!(tag >> 32, 16);
    assert_eq!(tag, (16i64 << 32) | 7);

    let mut column = descriptor("id", PhysicalType::FixedLenByteArray(16), Some(PrimitiveLogicalType::Uuid));
    column.id = Some(1);
    let metadata =
        FileMetaData { num_rows: 0, num_row_groups: 0, num_fields: 1, columns: vec![column] };
    let decoder = ParquetDecoder::read(&metadata);
    assert_eq!(decoder.columns[0].typ, ColumnType::Uuid);
    assert_eq!(decoder.columns[0].physical_type, 0x0000_0010_0000_0007);
}

#[test]
fn packed_tags_of_the_physical_types() {
    assert_eq!(ParquetDecoder::physical_type_tag(PhysicalType::Boolean), BOOLEAN as i64);
    assert_eq!(ParquetDecoder::physical_type_tag(PhysicalType::Int32), INT32 as i64);
    assert_eq!(ParquetDecoder::physical_type_tag(PhysicalType::Int64), INT64 as i64);
    assert_eq!(ParquetDecoder::physical_type_tag(PhysicalType::Int96), INT96 as i64);
    assert_eq!(ParquetDecoder::physical_type_tag(PhysicalType::Float), FLOAT as i64);
    assert_eq!(ParquetDecoder::physical_type_tag(PhysicalType::Double), DOUBLE as i64);
    assert_eq!(ParquetDecoder::physical_type_tag(PhysicalType::ByteArray), BYTE_ARRAY as i64);
    assert_eq!(
        ParquetDecoder::physical_type_tag(PhysicalType::FixedLenByteArray(32)),
        (32i64 << 32) | FIXED_LEN_BYTE_ARRAY as i64
    );
    assert_eq!(
        ParquetDecoder::physical_type_tag(PhysicalType::FixedLenByteArray(0)),
        FIXED_LEN_BYTE_ARRAY as i64
    );
    assert_eq!([BOOLEAN, INT32, INT64, INT96, FLOAT, DOUBLE, BYTE_ARRAY, FIXED_LEN_BYTE_ARRAY], [
        0, 1, 2, 3, 4, 5, 6, 7
    ]);
}

#[test]
fn geo_types_are_stored_as_integers() {
    assert_eq!(ColumnType::GeoByte.storage_type(), ColumnType::Byte);
    assert_eq!(ColumnType::GeoShort.storage_type(), ColumnType::Short);
    assert_eq!(ColumnType::GeoInt.storage_type(), ColumnType::Int);
    assert_eq!(ColumnType::GeoLong.storage_type(), ColumnType::Long);
    assert_eq!(ColumnType::IPv4.storage_type(), ColumnType::Int);
    assert_eq!(ColumnType::Varchar.storage_type(), ColumnType::Varchar);
    assert_eq!(ColumnType::Long256.storage_type(), ColumnType::Long256);
}

fn all_column_types() -> Vec<ColumnType> {
    vec![
        ColumnType::Boolean,
        ColumnType::Byte,
        ColumnType::Short,
        ColumnType::Int,
        ColumnType::Long,
        ColumnType::Date,
        ColumnType::Timestamp,
        ColumnType::Float,
        ColumnType::Double,
        ColumnType::Long256,
        ColumnType::GeoByte,
        ColumnType::GeoShort,
        ColumnType::GeoInt,
        ColumnType::GeoLong,
        ColumnType::Binary,
        ColumnType::Uuid,
        ColumnType::Long128,
        ColumnType::IPv4,
        ColumnType::Varchar,
    ]
}

#[test]
fn written_types_are_read_as_their_storage_type() {
    for column_type in all_column_types() {
        let (physical_type, logical_type) = column_type_to_parquet_type(column_type);
        assert_eq!(map(physical_type, logical_type), Some(column_type.storage_type()));
    }
}

fn to_parquet2_physical(physical_type: PhysicalType) -> FilePhysicalType {
    match physical_type {
        PhysicalType::Boolean => FilePhysicalType::Boolean,
        PhysicalType::Int32 => FilePhysicalType::Int32,
        PhysicalType::Int64 => FilePhysicalType::Int64,
        PhysicalType::Int96 => FilePhysicalType::Int96,
        PhysicalType::Float => FilePhysicalType::Float,
        PhysicalType::Double => FilePhysicalType::Double,
        PhysicalType::ByteArray => FilePhysicalType::ByteArray,
        PhysicalType::FixedLenByteArray(length) => {
            FilePhysicalType::FixedLenByteArray(length)
        }
    }
}

fn from_parquet2_physical(physical_type: FilePhysicalType) -> PhysicalType {
    match physical_type {
        FilePhysicalType::Boolean => PhysicalType::Boolean,
        FilePhysicalType::Int32 => PhysicalType::Int32,
        FilePhysicalType::Int64 => PhysicalType::Int64,
        FilePhysicalType::Int96 => PhysicalType::Int96,
        FilePhysicalType::Float => PhysicalType::Float,
        FilePhysicalType::Double => PhysicalType::Double,
        FilePhysicalType::ByteArray => PhysicalType::ByteArray,
        FilePhysicalType::FixedLenByteArray(length) => {
            PhysicalType::FixedLenByteArray(length)
        }
    }
}

fn to_parquet2_logical(
    logical_type: PrimitiveLogicalType,
) -> FileLogicalType {
    match logical_type {
        PrimitiveLogicalType::String => FileLogicalType::String,
        PrimitiveLogicalType::Uuid => FileLogicalType::Uuid,
        PrimitiveLogicalType::Integer(IntegerType::Int8) => FileLogicalType::Integer(FileIntegerType::Int8),
        PrimitiveLogicalType::Integer(IntegerType::Int16) => FileLogicalType::Integer(FileIntegerType::Int16),
        PrimitiveLogicalType::Integer(IntegerType::Int32) => FileLogicalType::Integer(FileIntegerType::Int32),
        PrimitiveLogicalType::Integer(IntegerType::Int64) => FileLogicalType::Integer(FileIntegerType::Int64),
        PrimitiveLogicalType::Timestamp { unit: TimeUnit::Milliseconds, is_adjusted_to_utc } => {
            FileLogicalType::Timestamp { unit: FileTimeUnit::Milliseconds, is_adjusted_to_utc }
        }
        PrimitiveLogicalType::Timestamp { unit: TimeUnit::Microseconds, is_adjusted_to_utc } => {
            FileLogicalType::Timestamp { unit: FileTimeUnit::Microseconds, is_adjusted_to_utc }
        }
        other => panic!("the writer declares no {:?}", other),
    }
}

fn from_parquet2_logical(
    logical_type: FileLogicalType,
) -> PrimitiveLogicalType {
    let unit_of = |unit: FileTimeUnit| match unit {
        FileTimeUnit::Milliseconds => TimeUnit::Milliseconds,
        FileTimeUnit::Microseconds => TimeUnit::Microseconds,
        FileTimeUnit::Nanoseconds => TimeUnit::Nanoseconds,
    };
    match logical_type {
        FileLogicalType::String => PrimitiveLogicalType::String,
        FileLogicalType::Enum => PrimitiveLogicalType::Enum,
        FileLogicalType::Decimal(precision, scale) => PrimitiveLogicalType::Decimal(precision, scale),
        FileLogicalType::Date => PrimitiveLogicalType::Date,
        FileLogicalType::Time { unit, is_adjusted_to_utc } => {
            PrimitiveLogicalType::Time { unit: unit_of(unit), is_adjusted_to_utc }
        }
        FileLogicalType::Timestamp { unit, is_adjusted_to_utc } => {
            PrimitiveLogicalType::Timestamp { unit: unit_of(unit), is_adjusted_to_utc }
        }
        FileLogicalType::Integer(integer_type) => PrimitiveLogicalType::Integer(match integer_type {
            FileIntegerType::Int8 => IntegerType::Int8,
            FileIntegerType::Int16 => IntegerType::Int16,
            FileIntegerType::Int32 => IntegerType::Int32,
            FileIntegerType::Int64 => IntegerType::Int64,
            FileIntegerType::UInt8 => IntegerType::UInt8,
            FileIntegerType::UInt16 => IntegerType::UInt16,
            FileIntegerType::UInt32 => IntegerType::UInt32,
            FileIntegerType::UInt64 => IntegerType::UInt64,
        }),
        FileLogicalType::Unknown => PrimitiveLogicalType::Unknown,
        FileLogicalType::Json => PrimitiveLogicalType::Json,
        FileLogicalType::Bson => PrimitiveLogicalType::Bson,
        FileLogicalType::Uuid => PrimitiveLogicalType::Uuid,
    }
}

/// Writes a file with the given schema and no rows, and reads its footer back.
fn footer_of_written_file(fields: Vec<ParquetType>) -> FileMetaData {
    let schema = SchemaDescriptor::new("test_table".to_string(), fields);
    let options = parquet2::write::WriteOptions {
        write_statistics: false,
        version: parquet2::write::Version::V1,
    };
    let mut writer = FileWriter::new(Cursor::new(Vec::new()), schema, options, None);
    writer.end(None).expect("parquet writer");
    let mut file = Cursor::new(writer.into_inner().into_inner());

    let metadata = read_metadata(&mut file).expect("parquet footer");
    let columns = metadata
        .schema_descr
        .columns()
        .iter()
        .map(|column| {
            let primitive = &column.descriptor.primitive_type;
            ColumnDescriptor {
                name: primitive.field_info.name.clone(),
                id: primitive.field_info.id,
                physical_type: from_parquet2_physical(primitive.physical_type),
                logical_type: primitive.logical_type.map(from_parquet2_logical),
            }
        })
        .collect();
    FileMetaData {
        num_rows: metadata.num_rows,
        num_row_groups: metadata.row_groups.len(),
        num_fields: metadata.schema().fields().len(),
        columns,
    }
}

#[test]
fn schema_written_to_a_file_is_read_back() {
    let cols = fixed_columns();
    let fields: Vec<ParquetType> = cols
        .iter()
        .enumerate()
        .map(|(i, (col_type, name))| {
            let (physical_type, logical_type) = column_type_to_parquet_type(*col_type);
            ParquetType::try_from_primitive(
                name.to_string(),
                to_parquet2_physical(physical_type),
                Repetition::Required,
                None,
                logical_type.map(to_parquet2_logical),
                Some(i as i32),
            )
            .expect("a valid primitive type")
        })
        .collect();

    let decoder = ParquetDecoder::read(&footer_of_written_file(fields));

    assert_eq!(decoder.row_count, 0);
    assert_eq!(decoder.row_group_count, 0);
    assert_eq!(decoder.col_count, 17);
    assert_eq!(decoder.columns.len(), 17);
    for (i, col) in decoder.columns.iter().enumerate() {
        let (col_type, name) = cols[i];
        assert_eq!(col.typ, to_storage_type(col_type));
        assert_eq!(String::from_utf16(&col.name_vec).unwrap(), name);
        assert_eq!(col.id, i as i32);
    }
}

#[test]
fn unsupported_columns_of_a_file_are_left_out() {
    let fields = vec![
        ParquetType::from_physical("kept".to_string(), FilePhysicalType::Int64),
        ParquetType::from_physical("int96".to_string(), FilePhysicalType::Int96),
        ParquetType::from_physical(
            "fixed".to_string(),
            FilePhysicalType::FixedLenByteArray(32),
        ),
    ];
    let decoder = ParquetDecoder::read(&footer_of_written_file(fields));
    assert_eq!(decoder.col_count, 3);
    assert_eq!(decoder.columns.len(), 2);
    assert_eq!(decoder.columns[0].typ, ColumnType::Long);
    assert_eq!(decoder.columns[0].id, -1);
    assert_eq!(decoder.columns[0].physical_type, INT64 as i64);
    assert_eq!(decoder.columns[1].typ, ColumnType::Long256);
    assert_eq!(decoder.columns[1].physical_type, (32i64 << 32) | 7);
    assert_eq!(String::from_utf16(&decoder.columns[1].name_vec).unwrap(), "fixed");
}
