//! Options of the writer that the page encoders read.

use vstd::prelude::*;

verus! {

/// The data page layout of the Parquet format.
#[derive(Clone, Copy, Debug, PartialEq, Eq, Structural)]
pub enum Version {
    V1,
    V2,
}

/// Write options.
#[derive(Clone, Copy, Debug, PartialEq, Eq, Structural)]
pub struct WriteOptions {
    /// The data page layout to write.
    pub version: Version,
}

} // verus!
