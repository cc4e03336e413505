//! Helpers shared by the page encoders: bit widths, little-endian integers and
//! the framing of definition levels.

use vstd::prelude::*;
use vstd::arithmetic::power2::*;
use vstd::std_specs::bits::*;
use crate::parquet_write::file::Version;
use crate::parquet_write::hybrid_rle::{encode_bool, hybrid_rle_bools};
use crate::parquet_write::{ParquetError, ParquetResult};

verus! {

/// The number of bits of the binary numeral of `max`: the least width that
/// holds every value of `0..=max`.
pub open spec fn bit_width(max: nat) -> nat
    decreases max,
{
    if max == 0 {
        0
    } else {
        1 + bit_width(max / 2)
    }
}

/// `bit_width(max)` bits hold `max`, and one bit less does not.
pub proof fn lemma_bit_width_is_least(max: nat)
    ensures
        max < pow2(bit_width(max)),
        bit_width(max) > 0 ==> pow2((bit_width(max) - 1) as nat) <= max,
    decreases max,
{
    if max == 0 {
        lemma2_to64();
    } else {
        lemma_bit_width_is_least(max / 2);
        lemma_pow2_unfold(bit_width(max));
        if bit_width(max / 2) > 0 {
            lemma_pow2_unfold(bit_width(max / 2));
        } else {
            lemma2_to64();
        }
    }
}

/// A value below `2^bits` has a width of at most `bits`.
pub proof fn lemma_bit_width_below(max: nat, bits: nat)
    requires
        max < pow2(bits),
    ensures
        bit_width(max) <= bits,
    decreases max,
{
    if max > 0 {
        if bits == 0 {
            lemma2_to64();
        } else {
            lemma_pow2_unfold(bits);
            lemma_bit_width_below(max / 2, (bits - 1) as nat);
        }
    }
}

/// The leading zeros of a 64-bit integer are the bits that its width leaves.
proof fn lemma_leading_zeros(i: u64)
    ensures
        u64_leading_zeros(i) == 64 - bit_width(i as nat),
    decreases i,
{
    reveal(u64_leading_zeros);
    if i != 0 {
        lemma_leading_zeros(i / 2);
    }
}

/// The least number of bits that hold every value of `0..=max`.
pub fn get_bit_width(max: u64) -> (width: u32)
    ensures
        width == bit_width(max as nat),
        width <= 64,
        max <= u32::MAX ==> width <= 32,
{
    proof {
        lemma_leading_zeros(max);
        axiom_u64_leading_zeros(max);
        if max <= u32::MAX {
            lemma2_to64();
            lemma_bit_width_below(max as nat, 32);
        }
    }
    64 - max.leading_zeros()
}

/// The four bytes of `n` as an unsigned 32-bit integer, least significant
/// first.
pub open spec fn u32_le_bytes(n: int) -> Seq<u8> {
    seq![
        (n % 0x100) as u8,
        ((n / 0x100) % 0x100) as u8,
        ((n / 0x1_0000) % 0x100) as u8,
        ((n / 0x100_0000) % 0x100) as u8,
    ]
}

/// The unsigned 32-bit integer whose bytes, least significant first, are the
/// first four of `bytes`.
pub open spec fn u32_from_le_bytes(bytes: Seq<u8>) -> int {
    bytes[0] + 0x100 * bytes[1] + 0x1_0000 * bytes[2] + 0x100_0000 * bytes[3]
}

/// The signed 32-bit integer in two's complement whose bytes, least
/// significant first, are the first four of `bytes`.
pub open spec fn i32_from_le_bytes(bytes: Seq<u8>) -> int {
    let unsigned = u32_from_le_bytes(bytes);
    if unsigned >= 0x8000_0000 {
        unsigned - 0x1_0000_0000
    } else {
        unsigned
    }
}

/// Appends the four bytes of `n`, least significant first.
pub fn push_u32_le(buffer: &mut Vec<u8>, n: u32)
    ensures
        final(buffer)@ == old(buffer)@ + u32_le_bytes(n as int),
{
    buffer.push((n % 0x100) as u8);
    buffer.push(((n / 0x100) % 0x100) as u8);
    buffer.push(((n / 0x1_0000) % 0x100) as u8);
    buffer.push(((n / 0x100_0000) % 0x100) as u8);
    assert(buffer@ =~= old(buffer)@ + u32_le_bytes(n as int));
}

/// Reads the signed 32-bit integer at `offset`, least significant byte first.
pub fn read_i32_le(bytes: &[u8], offset: usize) -> (n: i32)
    requires
        offset + 4 <= bytes@.len(),
    ensures
        n == i32_from_le_bytes(bytes@.subrange(offset as int, offset + 4)),
{
    let unsigned: u32 = bytes[offset] as u32 + 0x100 * (bytes[offset + 1] as u32) + 0x1_0000 * (
    bytes[offset + 2] as u32) + 0x100_0000 * (bytes[offset + 3] as u32);
    if unsigned >= 0x8000_0000 {
        (unsigned as i64 - 0x1_0000_0000) as i32
    } else {
        unsigned as i32
    }
}

/// Definition levels as a data page holds them: behind a four-byte length in
/// the first layout, bare in the second, where the page header has the length.
pub open spec fn framed_levels(encoded: Seq<u8>, version: Version) -> Seq<u8> {
    match version {
        Version::V1 => u32_le_bytes(encoded.len() as int) + encoded,
        Version::V2 => encoded,
    }
}

/// Whether encoded levels of this length can be framed: the length header of
/// the first layout is a signed 32-bit integer.
pub open spec fn levels_fit(len: nat, version: Version) -> bool {
    version is V2 || len <= i32::MAX
}

/// Appends encoded definition levels to a data page buffer, framed for the
/// layout. Fails, and leaves the buffer as it is, where the levels are too
/// long for the length header.
pub fn write_levels(buffer: &mut Vec<u8>, encoded: &[u8], version: Version) -> (r: ParquetResult<
    (),
>)
    ensures
        match r {
            Ok(_) => levels_fit(encoded@.len(), version) && final(buffer)@ == old(buffer)@
                + framed_levels(encoded@, version),
            Err(e) => !levels_fit(encoded@.len(), version) && e == ParquetError::Format
                && final(buffer)@ == old(buffer)@,
        },
{
    match version {
        Version::V1 => {
            if encoded.len() > 0x7fff_ffff {
                return Err(ParquetError::Format);
            }
            push_u32_le(buffer, encoded.len() as u32);
        },
        Version::V2 => {},
    }
    buffer.extend_from_slice(encoded);
    assert(buffer@ =~= old(buffer)@ + framed_levels(encoded@, version));
    Ok(())
}

/// Encodes the definition levels of a column of optional values, one bit a
/// row, and appends them to a data page buffer. Fails, and leaves the buffer
/// as it is, exactly where the levels are too long for their length header.
pub fn encode_definition_levels(buffer: &mut Vec<u8>, present: &[bool], version: Version) -> (r:
    ParquetResult<()>)
    ensures
        match r {
            Ok(_) => levels_fit(hybrid_rle_bools(present@).len(), version) && final(buffer)@
                == old(buffer)@ + framed_levels(hybrid_rle_bools(present@), version),
            Err(e) => !levels_fit(hybrid_rle_bools(present@).len(), version) && e
                == ParquetError::Format && final(buffer)@ == old(buffer)@,
        },
{
    let mut encoded: Vec<u8> = Vec::new();
    match encode_bool(&mut encoded, present) {
        Ok(_) => {
            assert(encoded@ =~= hybrid_rle_bools(present@));
            write_levels(buffer, encoded.as_slice(), version)
        },
        Err(_) => Err(ParquetError::Format),
    }
}

} // verus!
