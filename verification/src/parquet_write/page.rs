//! Encoded pages, held as plain values.

use vstd::prelude::*;

verus! {

/// The encoding of the values of a data page.
#[derive(Clone, Copy, Debug, PartialEq, Eq, Structural)]
pub enum Encoding {
    Plain,
    PlainDictionary,
    Rle,
    BitPacked,
    DeltaBinaryPacked,
    DeltaLengthByteArray,
    DeltaByteArray,
    RleDictionary,
    ByteStreamSplit,
}

/// A dictionary page: the serialised distinct values of a column chunk.
#[derive(Clone, Debug, PartialEq, Eq)]
pub struct DictPage {
    pub buffer: Vec<u8>,
    pub num_values: usize,
    pub is_sorted: bool,
}

/// A data page: definition levels followed by the encoded values.
#[derive(Clone, Debug, PartialEq, Eq)]
pub struct DataPage {
    pub buffer: Vec<u8>,
    /// The number of values, nulls included.
    pub num_values: usize,
    pub num_rows: usize,
    pub null_count: usize,
    /// The length of the definition levels at the start of `buffer`.
    pub definition_levels_byte_length: usize,
    pub encoding: Encoding,
}

/// A page of a column chunk.
#[derive(Clone, Debug, PartialEq, Eq)]
pub enum Page {
    Data(DataPage),
    Dict(DictPage),
}

/// What a [`DictPage`] holds.
pub struct DictPageView {
    pub buffer: Seq<u8>,
    pub num_values: nat,
    pub is_sorted: bool,
}

/// What a [`DataPage`] holds.
pub struct DataPageView {
    pub buffer: Seq<u8>,
    pub num_values: nat,
    pub num_rows: nat,
    pub null_count: nat,
    pub definition_levels_byte_length: nat,
    pub encoding: Encoding,
}

/// What a [`Page`] holds.
pub enum PageView {
    Data(DataPageView),
    Dict(DictPageView),
}

impl View for DictPage {
    type V = DictPageView;

    open spec fn view(&self) -> DictPageView {
        DictPageView {
            buffer: self.buffer@,
            num_values: self.num_values as nat,
            is_sorted: self.is_sorted,
        }
    }
}

impl View for DataPage {
    type V = DataPageView;

    open spec fn view(&self) -> DataPageView {
        DataPageView {
            buffer: self.buffer@,
            num_values: self.num_values as nat,
            num_rows: self.num_rows as nat,
            null_count: self.null_count as nat,
            definition_levels_byte_length: self.definition_levels_byte_length as nat,
            encoding: self.encoding,
        }
    }
}

impl View for Page {
    type V = PageView;

    open spec fn view(&self) -> PageView {
        match self {
            Page::Data(page) => PageView::Data(page@),
            Page::Dict(page) => PageView::Dict(page@),
        }
    }
}

impl DataPageView {
    /// The counts are consistent and the definition levels lie within the
    /// buffer.
    pub open spec fn wf(self) -> bool {
        &&& self.null_count <= self.num_values
        &&& self.num_rows == self.num_values
        &&& self.definition_levels_byte_length <= self.buffer.len()
    }

    /// The number of rows that carry a value.
    pub open spec fn non_null_count(self) -> nat {
        (self.num_values - self.null_count) as nat
    }
}

impl DataPage {
    /// The number of rows that carry a value.
    pub fn non_null_count(&self) -> (count: usize)
        requires
            self@.wf(),
        ensures
            count == self@.non_null_count(),
    {
        self.num_values - self.null_count
    }
}

} // verus!
