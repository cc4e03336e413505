//! The read path: the column descriptors of an opened Parquet file.

use vstd::prelude::*;
use crate::parquet_write::schema::ColumnType;
use crate::schema::{PhysicalType, PrimitiveLogicalType};

pub mod jni;
pub mod meta;

verus! {

/// A leaf column of a file's schema.
#[derive(Clone, Debug, PartialEq, Eq)]
pub struct ColumnDescriptor {
    pub name: String,
    /// The column's stable id, where the schema has one.
    pub id: Option<i32>,
    pub physical_type: PhysicalType,
    pub logical_type: Option<PrimitiveLogicalType>,
}

/// What the footer of a file says of its rows and its schema.
#[derive(Clone, Debug, PartialEq, Eq)]
pub struct FileMetaData {
    pub num_rows: usize,
    pub num_row_groups: usize,
    /// The number of top-level fields of the schema.
    pub num_fields: usize,
    /// The leaf columns of the schema, in schema order.
    pub columns: Vec<ColumnDescriptor>,
}

/// A column that the engine can read.
#[derive(Clone, Debug, PartialEq, Eq)]
pub struct ColumnMeta {
    pub typ: ColumnType,
    /// The column's stable id, or -1 where the schema has none.
    pub id: i32,
    /// The packed physical type tag.
    pub physical_type: i64,
    /// The column's name in UTF-16 code units.
    pub name_vec: Vec<u16>,
}

/// What a [`ColumnMeta`] holds.
pub struct ColumnMetaView {
    pub typ: ColumnType,
    pub id: i32,
    pub physical_type: i64,
    pub name: Seq<u16>,
}

impl View for ColumnMeta {
    type V = ColumnMetaView;

    open spec fn view(&self) -> ColumnMetaView {
        ColumnMetaView {
            typ: self.typ,
            id: self.id,
            physical_type: self.physical_type,
            name: self.name_vec@,
        }
    }
}

/// The decode buffers of one column, filled for one row group at a time.
#[derive(Clone, Debug, PartialEq, Eq)]
pub struct ColumnChunkBuffers {
    pub row_count: usize,
    pub data_vec: Vec<u8>,
    pub aux_vec: Vec<u8>,
}

impl ColumnChunkBuffers {
    /// Whether the buffers hold no rows.
    pub open spec fn is_empty(&self) -> bool {
        &&& self.row_count == 0
        &&& self.data_vec@.len() == 0
        &&& self.aux_vec@.len() == 0
    }

    /// Buffers that hold no rows.
    pub fn new() -> (buffers: ColumnChunkBuffers)
        ensures
            buffers.is_empty(),
    {
        ColumnChunkBuffers { row_count: 0, data_vec: Vec::new(), aux_vec: Vec::new() }
    }
}

/// The state of a read session on one file: the counts of the footer, the
/// columns that the engine can read, and one set of decode buffers for each of
/// them.
#[derive(Debug)]
pub struct ParquetDecoder {
    /// The number of top-level fields of the file's schema, whether or not the
    /// engine can read them.
    pub col_count: i32,
    pub row_count: usize,
    pub row_group_count: i32,
    pub decompress_buffer: Vec<u8>,
    /// The columns that the engine can read, in schema order.
    pub columns: Vec<ColumnMeta>,
    /// The decode buffers of `columns`, one for each.
    pub column_buffers: Vec<ColumnChunkBuffers>,
}

impl ParquetDecoder {
    /// Each readable column has its decode buffers.
    pub open spec fn wf(&self) -> bool {
        self.column_buffers@.len() == self.columns@.len()
    }
}

} // verus!
