//! The hybrid run-length/bit-packed encoders of `parquet2`.

use vstd::prelude::*;
use vstd::arithmetic::power2::pow2;

verus! {

/// The error of a failed write, `std::io::Error`: carried through, never
/// looked into.
#[verifier::external_type_specification]
#[verifier::external_body]
pub struct ExIoError(std::io::Error);

/// The bytes that `parquet2` writes for a run of booleans: a ULEB128 header
/// followed by the booleans packed eight to a byte.
pub uninterp spec fn hybrid_rle_bools(bits: Seq<bool>) -> Seq<u8>;

/// The bytes that `parquet2` writes for a run of `u32` values packed at
/// `num_bits` bits each: a ULEB128 header followed by the packed values.
pub uninterp spec fn hybrid_rle_u32s(values: Seq<u32>, num_bits: u32) -> Seq<u8>;

/// Calls `parquet2::encoding::hybrid_rle::encode_bool` on the booleans in
/// order. Not proved: that the call succeeds, and that the bytes appended to
/// `buffer` are a function of the booleans alone. The encoder fails only where
/// a write fails, and a write to a vector appends to it and does not fail.
#[verifier::external_body]
pub(crate) fn encode_bool(buffer: &mut Vec<u8>, bits: &[bool]) -> (r: Result<(), std::io::Error>)
    ensures
        r is Ok,
        final(buffer)@ == old(buffer)@ + hybrid_rle_bools(bits@),
{
    parquet2::encoding::hybrid_rle::encode_bool(buffer, bits.iter().copied())
}

/// Calls `parquet2::encoding::hybrid_rle::encode_u32` on the values in order.
/// Not proved: that the call succeeds, and that the bytes appended to `buffer`
/// are a function of the values and the bit width alone. The encoder packs at
/// most 32 bits a value and expects each value to fit in the width; it fails
/// only where a write fails, and a write to a vector appends to it and does
/// not fail.
#[verifier::external_body]
pub(crate) fn encode_u32(buffer: &mut Vec<u8>, values: &[u32], num_bits: u32) -> (r: Result<
    (),
    std::io::Error,
>)
    requires
        num_bits <= 32,
        forall|i: int| 0 <= i < values@.len() ==> values@[i] < pow2(num_bits as nat),
    ensures
        r is Ok,
        final(buffer)@ == old(buffer)@ + hybrid_rle_u32s(values@, num_bits),
{
    parquet2::encoding::hybrid_rle::encode_u32(buffer, values.iter().copied(), num_bits)
}

} // verus!
