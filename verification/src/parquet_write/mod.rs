//! The write path: native column types, and the encoding of symbol columns
//! into dictionary and data pages.

use vstd::prelude::*;

pub mod file;
pub mod hybrid_rle;
pub mod page;
pub mod schema;
pub mod symbol;
pub mod util;

verus! {

/// Why a column chunk could not be encoded.
#[derive(Clone, Copy, Debug, PartialEq, Eq, Structural)]
pub enum ParquetError {
    /// A symbol value is not well-formed UTF-16.
    InvalidUtf16,
    /// The definition levels are too long for their length header, or an
    /// encoder failed.
    Format,
}

pub type ParquetResult<T> = Result<T, ParquetError>;

} // verus!
