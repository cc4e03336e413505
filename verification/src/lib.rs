//! A bridge between a columnar engine's native column model and the Parquet
//! format: the mapping of Parquet's schema types onto native column types, the
//! column descriptors of an opened file, and the dictionary encoding of symbol
//! columns into page pairs.

pub mod parquet_read;
pub mod parquet_write;
pub mod schema;
pub mod utf16;
