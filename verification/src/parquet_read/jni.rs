//! The vocabulary of physical type tags that is shared with the host.

use vstd::prelude::*;

verus! {

pub const BOOLEAN: i32 = 0;

pub const INT32: i32 = 1;

pub const INT64: i32 = 2;

pub const INT96: i32 = 3;

pub const FLOAT: i32 = 4;

pub const DOUBLE: i32 = 5;

pub const BYTE_ARRAY: i32 = 6;

pub const FIXED_LEN_BYTE_ARRAY: i32 = 7;

/// The low 32 bits of a packed tag: the physical type.
pub open spec fn low_int(tag: i64) -> i64 {
    tag & 0xffff_ffff
}

/// The high 32 bits of a packed tag: the length of a fixed-length byte array.
pub open spec fn high_int(tag: i64) -> i64 {
    (tag >> 32) & 0xffff_ffff
}

/// A length in the high 32 bits above the tag of fixed-length byte arrays in
/// the low 32 bits.
pub open spec fn pack_fixed_len(length: usize) -> i64 {
    (((length as u64) << 32) as i64) | (FIXED_LEN_BYTE_ARRAY as i64)
}

/// Unpacking a packed tag gives the tag of fixed-length byte arrays and, for a
/// length of 32 bits, the length.
pub proof fn lemma_pack_fixed_len(length: usize)
    ensures
        low_int(pack_fixed_len(length)) == FIXED_LEN_BYTE_ARRAY,
        length <= u32::MAX ==> high_int(pack_fixed_len(length)) == length,
{
    let wide = length as u64;
    assert((((wide << 32) as i64) | 7i64) & 0xffff_ffff == 7) by (bit_vector);
    assert(wide <= 0xffff_ffff ==> ((((wide << 32) as i64) | 7i64) >> 32) & 0xffff_ffff == wide)
        by (bit_vector);
}

} // verus!
