//! The engine's native column types, and how a column of each is declared in
//! a Parquet schema.

use vstd::prelude::*;
use crate::schema::{IntegerType, PhysicalType, PrimitiveLogicalType, TimeUnit};

verus! {

/// The native type of a column. The geo-coded types and `IPv4` are stored as a
/// primitive integer, given by [`ColumnType::storage_type`].
#[derive(Clone, Copy, Debug, PartialEq, Eq, Structural)]
pub enum ColumnType {
    Boolean,
    Byte,
    Short,
    Int,
    Long,
    Date,
    Timestamp,
    Float,
    Double,
    Long256,
    GeoByte,
    GeoShort,
    GeoInt,
    GeoLong,
    Binary,
    Uuid,
    Long128,
    IPv4,
    Varchar,
}

impl ColumnType {
    /// The type that values of this type are stored as.
    pub open spec fn spec_storage_type(self) -> ColumnType {
        match self {
            ColumnType::GeoByte => ColumnType::Byte,
            ColumnType::GeoShort => ColumnType::Short,
            ColumnType::GeoInt | ColumnType::IPv4 => ColumnType::Int,
            ColumnType::GeoLong => ColumnType::Long,
            other => other,
        }
    }

    /// The type that values of this type are stored as: a primitive integer
    /// for the geo-coded types and `IPv4`, the type itself for the others.
    #[verifier::when_used_as_spec(spec_storage_type)]
    pub fn storage_type(self) -> (storage: ColumnType)
        ensures
            storage == self.spec_storage_type(),
    {
        match self {
            ColumnType::GeoByte => ColumnType::Byte,
            ColumnType::GeoShort => ColumnType::Short,
            ColumnType::GeoInt | ColumnType::IPv4 => ColumnType::Int,
            ColumnType::GeoLong => ColumnType::Long,
            other => other,
        }
    }

    /// Whether values of this type are stored as a type of their own.
    pub open spec fn is_storage_type(self) -> bool {
        self.spec_storage_type() == self
    }
}

/// The physical type and logical annotation that a schema declares for a
/// column of the given type.
pub open spec fn parquet_type_of(column_type: ColumnType) -> (PhysicalType, Option<
    PrimitiveLogicalType,
>) {
    match column_type.spec_storage_type() {
        ColumnType::Boolean => (PhysicalType::Boolean, None),
        ColumnType::Byte => (
            PhysicalType::Int32,
            Some(PrimitiveLogicalType::Integer(IntegerType::Int8)),
        ),
        ColumnType::Short => (
            PhysicalType::Int32,
            Some(PrimitiveLogicalType::Integer(IntegerType::Int16)),
        ),
        ColumnType::Int => (PhysicalType::Int32, None),
        ColumnType::Long => (PhysicalType::Int64, None),
        ColumnType::Date => (
            PhysicalType::Int64,
            Some(
                PrimitiveLogicalType::Timestamp {
                    unit: TimeUnit::Milliseconds,
                    is_adjusted_to_utc: true,
                },
            ),
        ),
        ColumnType::Timestamp => (
            PhysicalType::Int64,
            Some(
                PrimitiveLogicalType::Timestamp {
                    unit: TimeUnit::Microseconds,
                    is_adjusted_to_utc: true,
                },
            ),
        ),
        ColumnType::Float => (PhysicalType::Float, None),
        ColumnType::Double => (PhysicalType::Double, None),
        ColumnType::Varchar => (PhysicalType::ByteArray, Some(PrimitiveLogicalType::String)),
        ColumnType::Binary => (PhysicalType::ByteArray, None),
        ColumnType::Uuid => (PhysicalType::FixedLenByteArray(16), Some(PrimitiveLogicalType::Uuid)),
        ColumnType::Long128 => (PhysicalType::FixedLenByteArray(16), None),
        _ => (PhysicalType::FixedLenByteArray(32), None),
    }
}

/// The physical type and logical annotation that a schema declares for a
/// column of the given type: those of the type that its values are stored as.
pub fn column_type_to_parquet_type(column_type: ColumnType) -> (r: (
    PhysicalType,
    Option<PrimitiveLogicalType>,
))
    ensures
        r == parquet_type_of(column_type),
{
    match column_type.storage_type() {
        ColumnType::Boolean => (PhysicalType::Boolean, None),
        ColumnType::Byte => (
            PhysicalType::Int32,
            Some(PrimitiveLogicalType::Integer(IntegerType::Int8)),
        ),
        ColumnType::Short => (
            PhysicalType::Int32,
            Some(PrimitiveLogicalType::Integer(IntegerType::Int16)),
        ),
        ColumnType::Int => (PhysicalType::Int32, None),
        ColumnType::Long => (PhysicalType::Int64, None),
        ColumnType::Date => (
            PhysicalType::Int64,
            Some(
                PrimitiveLogicalType::Timestamp {
                    unit: TimeUnit::Milliseconds,
                    is_adjusted_to_utc: true,
                },
            ),
        ),
        ColumnType::Timestamp => (
            PhysicalType::Int64,
            Some(
                PrimitiveLogicalType::Timestamp {
                    unit: TimeUnit::Microseconds,
                    is_adjusted_to_utc: true,
                },
            ),
        ),
        ColumnType::Float => (PhysicalType::Float, None),
        ColumnType::Double => (PhysicalType::Double, None),
        ColumnType::Varchar => (PhysicalType::ByteArray, Some(PrimitiveLogicalType::String)),
        ColumnType::Binary => (PhysicalType::ByteArray, None),
        ColumnType::Uuid => (PhysicalType::FixedLenByteArray(16), Some(PrimitiveLogicalType::Uuid)),
        ColumnType::Long128 => (PhysicalType::FixedLenByteArray(16), None),
        _ => (PhysicalType::FixedLenByteArray(32), None),
    }
}

} // verus!
