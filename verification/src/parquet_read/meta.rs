//! Reading the columns of a file: the mapping of Parquet schema types onto
//! native column types, and the descriptors of the columns that the engine can
//! read.

use vstd::prelude::*;
use crate::parquet_read::jni::{
    pack_fixed_len,
    BOOLEAN,
    BYTE_ARRAY,
    DOUBLE,
    FIXED_LEN_BYTE_ARRAY,
    FLOAT,
    INT32,
    INT64,
    INT96,
};
use crate::parquet_read::{
    ColumnChunkBuffers,
    ColumnDescriptor,
    ColumnMeta,
    ColumnMetaView,
    FileMetaData,
    ParquetDecoder,
};
use crate::parquet_write::schema::{parquet_type_of, ColumnType};
use crate::schema::{IntegerType, PhysicalType, PrimitiveLogicalType, TimeUnit};
use crate::utf16::{decode_utf16, encode_utf16, lemma_utf16_round_trip, utf16_of};

verus! {

/// The type table as a relation: `maps_to(p, l, t)` holds where a column of
/// physical type `p` with logical annotation `l` is read as the native type
/// `t`.
pub open spec fn maps_to(
    physical: PhysicalType,
    logical: Option<PrimitiveLogicalType>,
    typ: ColumnType,
) -> bool {
    let utc_micros = Some(
        PrimitiveLogicalType::Timestamp { unit: TimeUnit::Microseconds, is_adjusted_to_utc: true },
    );
    let utc_millis = Some(
        PrimitiveLogicalType::Timestamp { unit: TimeUnit::Milliseconds, is_adjusted_to_utc: true },
    );
    let integer = |t: IntegerType| Some(PrimitiveLogicalType::Integer(t));
    ||| physical == PhysicalType::Int64 && logical == utc_micros && typ == ColumnType::Timestamp
    ||| physical == PhysicalType::Int64 && logical == utc_millis && typ == ColumnType::Date
    ||| physical == PhysicalType::Int64 && (logical is None || logical == integer(
        IntegerType::Int64,
    )) && typ == ColumnType::Long
    ||| physical == PhysicalType::Int32 && (logical is None || logical == integer(
        IntegerType::Int32,
    )) && typ == ColumnType::Int
    ||| physical == PhysicalType::Int32 && logical == integer(IntegerType::Int16) && typ
        == ColumnType::Short
    ||| physical == PhysicalType::Int32 && logical == integer(IntegerType::Int8) && typ
        == ColumnType::Byte
    ||| physical == PhysicalType::Boolean && logical is None && typ == ColumnType::Boolean
    ||| physical == PhysicalType::Double && logical is None && typ == ColumnType::Double
    ||| physical == PhysicalType::Float && logical is None && typ == ColumnType::Float
    ||| physical == PhysicalType::FixedLenByteArray(16) && logical == Some(
        PrimitiveLogicalType::Uuid,
    ) && typ == ColumnType::Uuid
    ||| physical == PhysicalType::ByteArray && logical == Some(PrimitiveLogicalType::String)
        && typ == ColumnType::Varchar
    ||| physical == PhysicalType::FixedLenByteArray(32) && logical is None && typ
        == ColumnType::Long256
    ||| physical == PhysicalType::ByteArray && logical is None && typ == ColumnType::Binary
    ||| physical == PhysicalType::FixedLenByteArray(16) && logical is None && typ
        == ColumnType::Long128
}

/// The native type that the table gives for a physical type and a logical
/// annotation, or `None` where it gives none.
pub open spec fn column_type_of(
    physical: PhysicalType,
    logical: Option<PrimitiveLogicalType>,
) -> Option<ColumnType> {
    if maps_to(physical, logical, ColumnType::Timestamp) {
        Some(ColumnType::Timestamp)
    } else if maps_to(physical, logical, ColumnType::Date) {
        Some(ColumnType::Date)
    } else if maps_to(physical, logical, ColumnType::Long) {
        Some(ColumnType::Long)
    } else if maps_to(physical, logical, ColumnType::Int) {
        Some(ColumnType::Int)
    } else if maps_to(physical, logical, ColumnType::Short) {
        Some(ColumnType::Short)
    } else if maps_to(physical, logical, ColumnType::Byte) {
        Some(ColumnType::Byte)
    } else if maps_to(physical, logical, ColumnType::Boolean) {
        Some(ColumnType::Boolean)
    } else if maps_to(physical, logical, ColumnType::Double) {
        Some(ColumnType::Double)
    } else if maps_to(physical, logical, ColumnType::Float) {
        Some(ColumnType::Float)
    } else if maps_to(physical, logical, ColumnType::Uuid) {
        Some(ColumnType::Uuid)
    } else if maps_to(physical, logical, ColumnType::Varchar) {
        Some(ColumnType::Varchar)
    } else if maps_to(physical, logical, ColumnType::Long256) {
        Some(ColumnType::Long256)
    } else if maps_to(physical, logical, ColumnType::Binary) {
        Some(ColumnType::Binary)
    } else if maps_to(physical, logical, ColumnType::Long128) {
        Some(ColumnType::Long128)
    } else {
        None
    }
}

/// The type table is a function: it gives a pair of a physical type and a
/// logical annotation at most one native type.
pub proof fn lemma_maps_to_is_a_function(
    physical: PhysicalType,
    logical: Option<PrimitiveLogicalType>,
    first: ColumnType,
    second: ColumnType,
)
    requires
        maps_to(physical, logical, first),
        maps_to(physical, logical, second),
    ensures
        first == second,
{
}

/// The type table is partial: it gives a column of 96-bit integers no native
/// type, whatever its logical annotation.
pub proof fn lemma_int96_is_unsupported(logical: Option<PrimitiveLogicalType>)
    ensures
        column_type_of(PhysicalType::Int96, logical) is None,
        forall|typ: ColumnType| !maps_to(PhysicalType::Int96, logical, typ),
{
}

/// `column_type_of` gives a native type exactly where the table holds it.
pub proof fn lemma_column_type_of(
    physical: PhysicalType,
    logical: Option<PrimitiveLogicalType>,
    typ: ColumnType,
)
    ensures
        column_type_of(physical, logical) == Some(typ) <==> maps_to(physical, logical, typ),
{
}

/// A column that a schema declares for a native type is read as the type that
/// its values are stored as: as the type itself, but for the geo-coded types
/// and `IPv4`.
pub proof fn lemma_type_round_trip(column_type: ColumnType)
    ensures
        column_type_of(parquet_type_of(column_type).0, parquet_type_of(column_type).1) == Some(
            column_type.spec_storage_type(),
        ),
        column_type.is_storage_type() ==> column_type_of(
            parquet_type_of(column_type).0,
            parquet_type_of(column_type).1,
        ) == Some(column_type),
{
    let (physical, logical) = parquet_type_of(column_type);
    lemma_column_type_of(physical, logical, column_type.spec_storage_type());
}

/// The tag of a physical type: its constant, and for a fixed-length byte array
/// its length in the high 32 bits above the constant.
pub open spec fn physical_type_tag(physical: PhysicalType) -> i64 {
    match physical {
        PhysicalType::Boolean => BOOLEAN as i64,
        PhysicalType::Int32 => INT32 as i64,
        PhysicalType::Int64 => INT64 as i64,
        PhysicalType::Int96 => INT96 as i64,
        PhysicalType::Float => FLOAT as i64,
        PhysicalType::Double => DOUBLE as i64,
        PhysicalType::ByteArray => BYTE_ARRAY as i64,
        PhysicalType::FixedLenByteArray(length) => pack_fixed_len(length),
    }
}

/// The descriptor of a column that is read as `typ`.
pub open spec fn column_meta_of(column: ColumnDescriptor, typ: ColumnType) -> ColumnMetaView {
    ColumnMetaView {
        typ,
        id: match column.id {
            Some(id) => id,
            None => -1i32,
        },
        physical_type: physical_type_tag(column.physical_type),
        name: utf16_of(column.name@),
    }
}

/// Whether the engine can read a column.
pub open spec fn is_supported(column: ColumnDescriptor) -> bool {
    column_type_of(column.physical_type, column.logical_type) is Some
}

/// The descriptors of the columns that the engine can read, in schema order.
pub open spec fn retained_columns(columns: Seq<ColumnDescriptor>) -> Seq<ColumnMetaView> {
    columns.filter(|column: ColumnDescriptor| is_supported(column)).map_values(
        |column: ColumnDescriptor|
            column_meta_of(
                column,
                column_type_of(column.physical_type, column.logical_type).unwrap(),
            ),
    )
}

/// The views of the column descriptors, in order.
pub open spec fn column_views(columns: Seq<ColumnMeta>) -> Seq<ColumnMetaView> {
    columns.map_values(|column: ColumnMeta| column@)
}

/// One more column at the end of a schema adds its descriptor at the end where
/// the engine can read it, and nothing where it cannot.
pub proof fn lemma_retained_columns_push(columns: Seq<ColumnDescriptor>, column: ColumnDescriptor)
    ensures
        retained_columns(columns.push(column)) == match column_type_of(
            column.physical_type,
            column.logical_type,
        ) {
            Some(typ) => retained_columns(columns).push(column_meta_of(column, typ)),
            None => retained_columns(columns),
        },
{
    reveal(Seq::filter);
    assert(columns.push(column).drop_last() =~= columns);
    match column_type_of(column.physical_type, column.logical_type) {
        Some(typ) => {
            assert(retained_columns(columns.push(column)) =~= retained_columns(columns).push(
                column_meta_of(column, typ),
            ));
        },
        None => {},
    }
}

/// A file whose schema declares a column for each of the given native types,
/// under the given names, is read with each column as the type that its values
/// are stored as, under its name.
pub proof fn lemma_schema_round_trip(
    written: Seq<(ColumnType, Seq<char>)>,
    columns: Seq<ColumnDescriptor>,
)
    requires
        columns.len() == written.len(),
        forall|i: int|
            0 <= i < written.len() ==> {
                &&& (#[trigger] columns[i]).name@ == written[i].1
                &&& (columns[i].physical_type, columns[i].logical_type) == parquet_type_of(
                    written[i].0,
                )
            },
    ensures
        retained_columns(columns).len() == written.len(),
        forall|i: int|
            0 <= i < written.len() ==> {
                &&& (#[trigger] retained_columns(columns)[i]).typ
                    == written[i].0.spec_storage_type()
                &&& written[i].0.is_storage_type() ==> retained_columns(columns)[i].typ
                    == written[i].0
                &&& decode_utf16(retained_columns(columns)[i].name) == Some(written[i].1)
            },
    decreases columns.len(),
{
    if columns.len() > 0 {
        let init = columns.drop_last();
        let last = columns.last();
        let written_init = written.drop_last();
        assert forall|i: int| 0 <= i < written_init.len() implies {
            &&& (#[trigger] init[i]).name@ == written_init[i].1
            &&& (init[i].physical_type, init[i].logical_type) == parquet_type_of(written_init[i].0)
        } by {
            assert(init[i] == columns[i]);
        }
        lemma_schema_round_trip(written_init, init);
        assert(init.push(last) =~= columns);
        lemma_retained_columns_push(init, last);
        assert(last == columns[columns.len() - 1]);
        lemma_type_round_trip(written.last().0);
        lemma_utf16_round_trip(written.last().1);
    } else {
        reveal(Seq::filter);
    }
}

impl ParquetDecoder {
    /// Opens a read session on a file with the given footer.
    ///
    /// The session has a descriptor for each leaf column of the schema that
    /// maps to a native type, in schema order, and empty decode buffers for
    /// each of them. A column that maps to none is left out. `col_count` is
    /// the number of top-level fields of the schema, which differs from the
    /// number of descriptors where a column is left out or nested.
    pub fn read(metadata: &FileMetaData) -> (decoder: ParquetDecoder)
        ensures
            decoder.wf(),
            decoder.col_count == metadata.num_fields as i32,
            metadata.num_fields <= i32::MAX ==> decoder.col_count == metadata.num_fields,
            decoder.row_count == metadata.num_rows,
            decoder.row_group_count == metadata.num_row_groups as i32,
            metadata.num_row_groups <= i32::MAX ==> decoder.row_group_count
                == metadata.num_row_groups,
            column_views(decoder.columns@) == retained_columns(metadata.columns@),
            forall|i: int|
                0 <= i < decoder.column_buffers@.len() ==> (
                #[trigger] decoder.column_buffers@[i]).is_empty(),
            decoder.decompress_buffer@.len() == 0,
    {
        let mut columns: Vec<ColumnMeta> = Vec::new();
        let mut column_buffers: Vec<ColumnChunkBuffers> = Vec::new();

        let mut i: usize = 0;
        proof {
            reveal(Seq::filter);
            assert(metadata.columns@.take(0) =~= Seq::<ColumnDescriptor>::empty());
            assert(column_views(columns@) =~= retained_columns(metadata.columns@.take(0)));
        }
        while i < metadata.columns.len()
            invariant
                i <= metadata.columns@.len(),
                column_buffers@.len() == columns@.len(),
                column_views(columns@) == retained_columns(metadata.columns@.take(i as int)),
                forall|k: int|
                    0 <= k < column_buffers@.len() ==> (#[trigger] column_buffers@[k]).is_empty(),
            decreases metadata.columns@.len() - i,
        {
            let column = &metadata.columns[i];
            proof {
                assert(metadata.columns@.take(i + 1) =~= metadata.columns@.take(i as int).push(
                    *column,
                ));
                lemma_retained_columns_push(metadata.columns@.take(i as int), *column);
            }
            // A column without a native type is left out.
            if let Some(typ) = Self::to_column_type(column) {
                let physical_type = Self::physical_type_tag(column.physical_type);
                let name = encode_utf16(column.name.as_str());
                let id = match column.id {
                    Some(id) => id,
                    None => -1,
                };
                let ghost before = columns@;
                columns.push(ColumnMeta { typ, id, physical_type, name_vec: name });
                column_buffers.push(ColumnChunkBuffers::new());
                assert(column_views(columns@) =~= column_views(before).push(
                    column_meta_of(*column, typ),
                ));
            }
            i = i + 1;
        }
        proof {
            assert(metadata.columns@.take(i as int) =~= metadata.columns@);
        }
        ParquetDecoder {
            col_count: #[verifier::truncate] (metadata.num_fields as i32),
            row_count: metadata.num_rows,
            row_group_count: #[verifier::truncate] (metadata.num_row_groups as i32),
            decompress_buffer: Vec::new(),
            columns,
            column_buffers,
        }
    }

    /// The packed tag of a physical type: its constant in the low 32 bits,
    /// and the length of a fixed-length byte array in the high 32 bits.
    pub fn physical_type_tag(physical: PhysicalType) -> (tag: i64)
        ensures
            tag == physical_type_tag(physical),
    {
        match physical {
            PhysicalType::Boolean => BOOLEAN as i64,
            PhysicalType::Int32 => INT32 as i64,
            PhysicalType::Int64 => INT64 as i64,
            PhysicalType::Int96 => INT96 as i64,
            PhysicalType::Float => FLOAT as i64,
            PhysicalType::Double => DOUBLE as i64,
            PhysicalType::ByteArray => BYTE_ARRAY as i64,
            PhysicalType::FixedLenByteArray(length) => {
                (((length as u64) << 32) as i64) | (FIXED_LEN_BYTE_ARRAY as i64)
            },
        }
    }

    /// Maps the physical type and logical annotation of a column to the
    /// native column type, or to `None` where the engine has no type for them.
    pub fn to_column_type(des: &ColumnDescriptor) -> (r: Option<ColumnType>)
        ensures
            r == column_type_of(des.physical_type, des.logical_type),
    {
        match (des.physical_type, des.logical_type) {
            (
                PhysicalType::Int64,
                Some(
                    PrimitiveLogicalType::Timestamp {
                        unit: TimeUnit::Microseconds,
                        is_adjusted_to_utc: true,
                    },
                ),
            ) => Some(ColumnType::Timestamp),
            (
                PhysicalType::Int64,
                Some(
                    PrimitiveLogicalType::Timestamp {
                        unit: TimeUnit::Milliseconds,
                        is_adjusted_to_utc: true,
                    },
                ),
            ) => Some(ColumnType::Date),
            (PhysicalType::Int64, None) => Some(ColumnType::Long),
            (
                PhysicalType::Int64,
                Some(PrimitiveLogicalType::Integer(IntegerType::Int64)),
            ) => Some(ColumnType::Long),
            (PhysicalType::Int32, None) => Some(ColumnType::Int),
            (
                PhysicalType::Int32,
                Some(PrimitiveLogicalType::Integer(IntegerType::Int32)),
            ) => Some(ColumnType::Int),
            (
                PhysicalType::Int32,
                Some(PrimitiveLogicalType::Integer(IntegerType::Int16)),
            ) => Some(ColumnType::Short),
            (
                PhysicalType::Int32,
                Some(PrimitiveLogicalType::Integer(IntegerType::Int8)),
            ) => Some(ColumnType::Byte),
            (PhysicalType::Boolean, None) => Some(ColumnType::Boolean),
            (PhysicalType::Double, None) => Some(ColumnType::Double),
            (PhysicalType::Float, None) => Some(ColumnType::Float),
            (PhysicalType::FixedLenByteArray(16), Some(PrimitiveLogicalType::Uuid)) => Some(
                ColumnType::Uuid,
            ),
            (PhysicalType::ByteArray, Some(PrimitiveLogicalType::String)) => Some(
                ColumnType::Varchar,
            ),
            (PhysicalType::FixedLenByteArray(32), None) => Some(ColumnType::Long256),
            (PhysicalType::ByteArray, None) => Some(ColumnType::Binary),
            (PhysicalType::FixedLenByteArray(16), None) => Some(ColumnType::Long128),
            (_, _) => None,
        }
    }
}

} // verus!
