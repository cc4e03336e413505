//! The dictionary encoding of symbol columns.
//!
//! A symbol column holds, for each row, a key into a heap of strings, or a
//! negative key for null. Its column chunk is written as a dictionary page,
//! which holds each distinct string once in the order of first use, and a data
//! page, which holds for each non-null row the position of its string in the
//! dictionary.

use vstd::prelude::*;
use vstd::arithmetic::power2::{lemma2_to64, pow2};
use vstd::utf8::encode_utf8;
use std::collections::HashMap;
use crate::parquet_write::file::{Version, WriteOptions};
use crate::parquet_write::hybrid_rle::{encode_u32, hybrid_rle_bools, hybrid_rle_u32s};
use crate::parquet_write::page::{
    DataPage,
    DataPageView,
    DictPage,
    DictPageView,
    Encoding,
    Page,
    PageView,
};
use crate::parquet_write::util::{
    bit_width,
    encode_definition_levels,
    framed_levels,
    get_bit_width,
    i32_from_le_bytes,
    lemma_bit_width_below,
    levels_fit,
    lemma_bit_width_is_least,
    push_u32_le,
    read_i32_le,
    u32_le_bytes,
};
use crate::parquet_write::{ParquetError, ParquetResult};
use crate::utf16::{decode_utf16, utf16_to_utf8};

verus! {

broadcast use vstd::std_specs::hash::group_hash_axioms;

/// Whether a row holds a value: a negative key stands for null.
pub open spec fn is_present(key: i32) -> bool {
    key > -1
}

/// The length prefix of the heap entry of `key`.
pub open spec fn entry_len(offsets: Seq<u64>, chars: Seq<u8>, key: int) -> int {
    i32_from_le_bytes(chars.subrange(offsets[key] as int, offsets[key] + 4))
}

/// Whether `key` has an offset, and the entry at that offset, a length prefix
/// of four bytes and as many bytes of data as it says, lies within the heap.
pub open spec fn entry_in_bounds(offsets: Seq<u64>, chars: Seq<u8>, key: int) -> bool {
    &&& 0 <= key < offsets.len()
    &&& offsets[key] + 4 <= chars.len()
    &&& 0 <= entry_len(offsets, chars, key)
    &&& offsets[key] + 4 + entry_len(offsets, chars, key) <= chars.len()
}

/// The data of the heap entry of `key`.
pub open spec fn entry_data(offsets: Seq<u64>, chars: Seq<u8>, key: int) -> Seq<u8> {
    chars.subrange(offsets[key] + 4, offsets[key] + 4 + entry_len(offsets, chars, key))
}

/// The code units that pairs of bytes hold, least significant byte first.
pub open spec fn utf16_le_units(data: Seq<u8>) -> Seq<u16> {
    Seq::new(data.len() / 2, |i: int| (data[2 * i] + 0x100 * data[2 * i + 1]) as u16)
}

/// The string of `key`, or `None` where its data is not well-formed UTF-16:
/// an odd number of bytes, or a surrogate that stands unpaired.
pub open spec fn symbol_value(offsets: Seq<u64>, chars: Seq<u8>, key: int) -> Option<Seq<char>> {
    let data = entry_data(offsets, chars, key);
    if data.len() % 2 == 0 {
        decode_utf16(utf16_le_units(data))
    } else {
        None
    }
}

/// The invariant of the inputs of a symbol column: every key of a non-null
/// row addresses an entry within the heap.
pub open spec fn valid_symbol_input(column_values: Seq<i32>, offsets: Seq<u64>, chars: Seq<u8>) -> bool {
    forall|row: int|
        0 <= row < column_values.len() && is_present(#[trigger] column_values[row])
            ==> entry_in_bounds(offsets, chars, column_values[row] as int)
}

/// Whether the string of every non-null row is well-formed UTF-16.
pub open spec fn all_decodable(column_values: Seq<i32>, offsets: Seq<u64>, chars: Seq<u8>) -> bool {
    forall|row: int|
        0 <= row < column_values.len() && is_present(#[trigger] column_values[row])
            ==> symbol_value(offsets, chars, column_values[row] as int) is Some
}

/// The keys of the non-null rows, each once, in the order of first use.
pub open spec fn dictionary_keys(column_values: Seq<i32>) -> Seq<i32>
    decreases column_values.len(),
{
    if column_values.len() == 0 {
        seq![]
    } else {
        let keys = dictionary_keys(column_values.drop_last());
        let key = column_values.last();
        if is_present(key) && !keys.contains(key) {
            keys.push(key)
        } else {
            keys
        }
    }
}

/// For each non-null row, in row order, the position of its key in `keys`.
pub open spec fn indices_in(keys: Seq<i32>, column_values: Seq<i32>) -> Seq<u32>
    decreases column_values.len(),
{
    if column_values.len() == 0 {
        seq![]
    } else {
        let indices = indices_in(keys, column_values.drop_last());
        let key = column_values.last();
        if is_present(key) {
            indices.push(keys.index_of(key) as u32)
        } else {
            indices
        }
    }
}

/// For each non-null row, in row order, the position of its string in the
/// dictionary.
pub open spec fn local_indices(column_values: Seq<i32>) -> Seq<u32> {
    indices_in(dictionary_keys(column_values), column_values)
}

/// The greatest local index, and 0 where the dictionary is empty.
pub open spec fn max_local_index(column_values: Seq<i32>) -> nat {
    let count = dictionary_keys(column_values).len();
    if count == 0 {
        0
    } else {
        (count - 1) as nat
    }
}

/// A string as a dictionary page holds it: the length of its UTF-8 encoding in
/// four bytes, then the encoding.
pub open spec fn dictionary_entry(value: Seq<char>) -> Seq<u8> {
    let bytes = encode_utf8(value);
    u32_le_bytes(bytes.len() as int) + bytes
}

/// The entries of the strings of `keys`, in order.
pub open spec fn dictionary_bytes(keys: Seq<i32>, offsets: Seq<u64>, chars: Seq<u8>) -> Seq<u8>
    decreases keys.len(),
{
    if keys.len() == 0 {
        seq![]
    } else {
        dictionary_bytes(keys.drop_last(), offsets, chars) + dictionary_entry(
            symbol_value(offsets, chars, keys.last() as int).unwrap(),
        )
    }
}

/// One flag a row: whether the row holds a value.
pub open spec fn presence(column_values: Seq<i32>) -> Seq<bool> {
    Seq::new(column_values.len(), |row: int| is_present(column_values[row]))
}

/// The number of null rows.
pub open spec fn null_count(column_values: Seq<i32>) -> nat
    decreases column_values.len(),
{
    if column_values.len() == 0 {
        0
    } else {
        null_count(column_values.drop_last()) + if is_present(column_values.last()) {
            0nat
        } else {
            1nat
        }
    }
}

/// The definition levels of a symbol column as its data page holds them.
pub open spec fn symbol_levels(column_values: Seq<i32>, version: Version) -> Seq<u8> {
    framed_levels(hybrid_rle_bools(presence(column_values)), version)
}

/// The buffer of the data page of a symbol column: the definition levels, one
/// byte that holds the bit width of the indices, and the packed indices.
pub open spec fn symbol_data_buffer(column_values: Seq<i32>, version: Version) -> Seq<u8> {
    let width = bit_width(max_local_index(column_values));
    symbol_levels(column_values, version) + seq![width as u8] + hybrid_rle_u32s(
        local_indices(column_values),
        width as u32,
    )
}

/// The dictionary page of a symbol column chunk.
pub open spec fn symbol_dict_page(
    column_values: Seq<i32>,
    offsets: Seq<u64>,
    chars: Seq<u8>,
) -> DictPageView {
    DictPageView {
        buffer: dictionary_bytes(dictionary_keys(column_values), offsets, chars),
        num_values: dictionary_keys(column_values).len(),
        is_sorted: false,
    }
}

/// The data page of a symbol column chunk.
pub open spec fn symbol_data_page(column_values: Seq<i32>, version: Version) -> DataPageView {
    DataPageView {
        buffer: symbol_data_buffer(column_values, version),
        num_values: column_values.len(),
        num_rows: column_values.len(),
        null_count: null_count(column_values),
        definition_levels_byte_length: symbol_levels(column_values, version).len(),
        encoding: Encoding::RleDictionary,
    }
}

/// A key of the dictionary is the key of a non-null row, and occurs once.
pub proof fn lemma_dictionary_keys_distinct(column_values: Seq<i32>)
    ensures
        dictionary_keys(column_values).no_duplicates(),
        forall|key: i32| #[trigger]
            dictionary_keys(column_values).contains(key) <==> is_present(key)
                && column_values.contains(key),
    decreases column_values.len(),
{
    let keys = dictionary_keys(column_values);
    if column_values.len() > 0 {
        let init = column_values.drop_last();
        let last = column_values.last();
        let before = dictionary_keys(init);
        lemma_dictionary_keys_distinct(init);
        assert forall|key: i32| #[trigger] keys.contains(key) <==> is_present(key)
            && column_values.contains(key) by {
            if keys.contains(key) {
                let at = choose|i: int| 0 <= i < keys.len() && keys[i] == key;
                if at < before.len() {
                    assert(before.contains(key));
                    let row = choose|i: int| 0 <= i < init.len() && init[i] == key;
                    assert(column_values[row] == key);
                } else {
                    assert(column_values[column_values.len() - 1] == key);
                }
            }
            if is_present(key) && column_values.contains(key) {
                let row = choose|i: int| 0 <= i < column_values.len() && column_values[i] == key;
                if row < init.len() {
                    assert(init[row] == key);
                    assert(before.contains(key));
                    let at = choose|i: int| 0 <= i < before.len() && before[i] == key;
                    assert(keys[at] == key);
                } else if before.contains(key) {
                    let at = choose|i: int| 0 <= i < before.len() && before[i] == key;
                    assert(keys[at] == key);
                } else {
                    assert(keys[keys.len() - 1] == key);
                }
            }
        }
    }
}

/// The dictionary of the first rows of a column begins the dictionary of the
/// column: a key stands before every key that is first used after it.
pub proof fn lemma_dictionary_keys_first_use(column_values: Seq<i32>, rows: int)
    requires
        0 <= rows <= column_values.len(),
    ensures
        dictionary_keys(column_values.take(rows)).is_prefix_of(dictionary_keys(column_values)),
    decreases column_values.len(),
{
    if rows == column_values.len() {
        assert(column_values.take(rows) =~= column_values);
    } else {
        let init = column_values.drop_last();
        lemma_dictionary_keys_first_use(init, rows);
        assert(init.take(rows) =~= column_values.take(rows));
    }
}

/// In a sequence without duplicates, the position of an element is where it
/// stands.
proof fn lemma_index_of(keys: Seq<i32>, at: int)
    requires
        keys.no_duplicates(),
        0 <= at < keys.len(),
    ensures
        keys.index_of(keys[at]) == at,
{
}

/// One more key at the end leaves the positions of the rows' keys as they are.
proof fn lemma_indices_in_push(keys: Seq<i32>, key: i32, column_values: Seq<i32>)
    requires
        keys.push(key).no_duplicates(),
        forall|row: int|
            0 <= row < column_values.len() && is_present(#[trigger] column_values[row])
                ==> keys.contains(column_values[row]),
    ensures
        indices_in(keys.push(key), column_values) == indices_in(keys, column_values),
    decreases column_values.len(),
{
    if column_values.len() > 0 {
        let init = column_values.drop_last();
        let last = column_values.last();
        assert forall|row: int| 0 <= row < init.len() && is_present(#[trigger] init[row])
            implies keys.contains(init[row]) by {
            assert(init[row] == column_values[row]);
        }
        lemma_indices_in_push(keys, key, init);
        if is_present(last) {
            assert(keys.contains(column_values[column_values.len() - 1]));
            let at = choose|i: int| 0 <= i < keys.len() && keys[i] == last;
            assert(keys.push(key)[at] == last);
            lemma_index_of(keys.push(key), at);
            assert(keys.no_duplicates()) by {
                assert forall|i: int, j: int|
                    0 <= i < keys.len() && 0 <= j < keys.len() && i != j implies keys[i]
                    != keys[j] by {
                    assert(keys.push(key)[i] == keys[i]);
                    assert(keys.push(key)[j] == keys[j]);
                }
            }
            lemma_index_of(keys, at);
        }
    }
}

/// Each local index points at the key of its row: the indices are as many as
/// the non-null rows, and the dictionary holds the key of the `n`th of them at
/// the `n`th index.
pub proof fn lemma_local_indices_point_at_keys(column_values: Seq<i32>)
    ensures
        local_indices(column_values).len() == column_values.len() - null_count(column_values),
        local_indices(column_values).len() == column_values.filter(
            |key: i32| is_present(key),
        ).len(),
        forall|n: int|
            0 <= n < local_indices(column_values).len() ==> {
                let index = #[trigger] local_indices(column_values)[n];
                &&& index < dictionary_keys(column_values).len()
                &&& dictionary_keys(column_values)[index as int] == column_values.filter(
                    |key: i32| is_present(key),
                )[n]
            },
{
    lemma_dictionary_keys_distinct(column_values);
    lemma_dictionary_keys_bounded(column_values);
    lemma_indices_in_point_at_keys(dictionary_keys(column_values), column_values);
}

/// The positions of the keys of the non-null rows in a sequence without
/// duplicates that holds them all: one for each such row, each pointing at the
/// key of its row.
proof fn lemma_indices_in_point_at_keys(keys: Seq<i32>, column_values: Seq<i32>)
    requires
        keys.no_duplicates(),
        keys.len() <= 0x8000_0000,
        forall|row: int|
            0 <= row < column_values.len() && is_present(#[trigger] column_values[row])
                ==> keys.contains(column_values[row]),
    ensures
        indices_in(keys, column_values).len() == column_values.len() - null_count(column_values),
        indices_in(keys, column_values).len() == column_values.filter(
            |key: i32| is_present(key),
        ).len(),
        forall|n: int|
            0 <= n < indices_in(keys, column_values).len() ==> {
                let index = #[trigger] indices_in(keys, column_values)[n];
                &&& index < keys.len()
                &&& keys[index as int] == column_values.filter(|key: i32| is_present(key))[n]
            },
    decreases column_values.len(),
{
    reveal(Seq::filter);
    if column_values.len() > 0 {
        let init = column_values.drop_last();
        let last = column_values.last();
        assert forall|row: int| 0 <= row < init.len() && is_present(#[trigger] init[row])
            implies keys.contains(init[row]) by {
            assert(init[row] == column_values[row]);
        }
        lemma_indices_in_point_at_keys(keys, init);
        if is_present(last) {
            assert(keys.contains(column_values[column_values.len() - 1]));
            let at = choose|i: int| 0 <= i < keys.len() && keys[i] == last;
            lemma_index_of(keys, at);
        }
    }
}

/// Distinct keys from zero up to a bound are at most as many as the bound.
proof fn lemma_distinct_keys_bounded(keys: Seq<i32>, bound: int)
    requires
        keys.no_duplicates(),
        0 <= bound,
        forall|i: int| 0 <= i < keys.len() ==> 0 <= #[trigger] keys[i] < bound,
    ensures
        keys.len() <= bound,
    decreases bound,
{
    if bound == 0 {
        if keys.len() > 0 {
            assert(0 <= keys[0] < bound);
        }
    } else if keys.contains((bound - 1) as i32) {
        let top = (bound - 1) as i32;
        let at = choose|i: int| 0 <= i < keys.len() && keys[i] == top;
        let rest = keys.remove(at);
        assert forall|i: int| 0 <= i < rest.len() implies 0 <= #[trigger] rest[i] < bound - 1 by {
            if i < at {
                assert(rest[i] == keys[i]);
            } else {
                assert(rest[i] == keys[i + 1]);
            }
        }
        assert(rest.no_duplicates()) by {
            assert forall|i: int, j: int|
                0 <= i < rest.len() && 0 <= j < rest.len() && i != j implies rest[i]
                != rest[j] by {
                let i0 = if i < at { i } else { i + 1 };
                let j0 = if j < at { j } else { j + 1 };
                assert(rest[i] == keys[i0]);
                assert(rest[j] == keys[j0]);
            }
        }
        lemma_distinct_keys_bounded(rest, bound - 1);
    } else {
        assert forall|i: int| 0 <= i < keys.len() implies 0 <= #[trigger] keys[i] < bound - 1 by {
            assert(0 <= keys[i] < bound);
            if keys[i] == bound - 1 {
                assert(keys.contains((bound - 1) as i32));
            }
        }
        lemma_distinct_keys_bounded(keys, bound - 1);
    }
}

/// A dictionary has at most `2^31` keys, so a local index fits in 32 bits.
pub proof fn lemma_dictionary_keys_bounded(column_values: Seq<i32>)
    ensures
        dictionary_keys(column_values).len() <= 0x8000_0000,
{
    let keys = dictionary_keys(column_values);
    lemma_dictionary_keys_distinct(column_values);
    assert forall|i: int| 0 <= i < keys.len() implies 0 <= #[trigger] keys[i] < 0x8000_0000 by {
        assert(keys.contains(keys[i]));
    }
    lemma_distinct_keys_bounded(keys, 0x8000_0000);
}

/// The bit width of the greatest local index holds every local index.
pub proof fn lemma_local_indices_fit(column_values: Seq<i32>)
    ensures
        bit_width(max_local_index(column_values)) <= 31,
        forall|n: int|
            0 <= n < local_indices(column_values).len() ==> #[trigger] local_indices(
                column_values,
            )[n] < pow2(bit_width(max_local_index(column_values))),
{
    lemma_local_indices_point_at_keys(column_values);
    lemma_dictionary_keys_bounded(column_values);
    lemma_bit_width_is_least(max_local_index(column_values));
    lemma2_to64();
    lemma_bit_width_below(max_local_index(column_values), 31);
}

/// The data page of a symbol column is well-formed: the null rows are among
/// its rows, the definition levels lie within its buffer, and the rows that
/// are not null are as many as the local indices.
pub proof fn lemma_symbol_data_page_wf(column_values: Seq<i32>, version: Version)
    ensures
        symbol_data_page(column_values, version).wf(),
        symbol_data_page(column_values, version).non_null_count() == local_indices(
            column_values,
        ).len(),
{
    lemma_local_indices_point_at_keys(column_values);
}

/// In the buffer of the data page, the byte behind the definition levels
/// holds the bit width of the greatest local index, and the packed local
/// indices follow it to the end.
pub proof fn lemma_width_byte(column_values: Seq<i32>, version: Version)
    ensures
        symbol_levels(column_values, version).len() < symbol_data_buffer(
            column_values,
            version,
        ).len(),
        symbol_data_buffer(column_values, version)[symbol_levels(
            column_values,
            version,
        ).len() as int] == bit_width(max_local_index(column_values)),
        symbol_data_buffer(column_values, version).skip(
            symbol_levels(column_values, version).len() as int + 1,
        ) == hybrid_rle_u32s(
            local_indices(column_values),
            bit_width(max_local_index(column_values)) as u32,
        ),
{
    lemma_local_indices_fit(column_values);
    let levels = symbol_levels(column_values, version);
    let width = bit_width(max_local_index(column_values));
    let packed = hybrid_rle_u32s(local_indices(column_values), width as u32);
    assert(symbol_data_buffer(column_values, version).skip(levels.len() as int + 1) =~= packed);
}

/// One more null row at the end of a column leaves its dictionary and its
/// local indices as they are, and adds one to its null rows.
pub proof fn lemma_append_null(
    column_values: Seq<i32>,
    key: i32,
    offsets: Seq<u64>,
    chars: Seq<u8>,
)
    requires
        !is_present(key),
    ensures
        dictionary_keys(column_values.push(key)) == dictionary_keys(column_values),
        local_indices(column_values.push(key)) == local_indices(column_values),
        max_local_index(column_values.push(key)) == max_local_index(column_values),
        null_count(column_values.push(key)) == null_count(column_values) + 1,
        presence(column_values.push(key)) == presence(column_values).push(false),
        symbol_dict_page(column_values.push(key), offsets, chars) == symbol_dict_page(
            column_values,
            offsets,
            chars,
        ),
{
    assert(column_values.push(key).drop_last() =~= column_values);
    assert(presence(column_values.push(key)) =~= presence(column_values).push(false));
}

/// A column of nulls has no local indices and an empty dictionary.
pub proof fn lemma_all_null(column_values: Seq<i32>, offsets: Seq<u64>, chars: Seq<u8>)
    requires
        forall|row: int| 0 <= row < column_values.len() ==> !is_present(column_values[row]),
    ensures
        local_indices(column_values) == Seq::<u32>::empty(),
        dictionary_keys(column_values) == Seq::<i32>::empty(),
        dictionary_bytes(dictionary_keys(column_values), offsets, chars) == Seq::<u8>::empty(),
        max_local_index(column_values) == 0,
        bit_width(max_local_index(column_values)) == 0,
        null_count(column_values) == column_values.len(),
    decreases column_values.len(),
{
    if column_values.len() > 0 {
        let init = column_values.drop_last();
        assert forall|row: int| 0 <= row < init.len() implies !is_present(init[row]) by {
            assert(init[row] == column_values[row]);
        }
        lemma_all_null(init, offsets, chars);
        assert(!is_present(column_values[column_values.len() - 1]));
    }
}

/// The dictionary bytes are empty exactly where the dictionary has no key.
pub proof fn lemma_dictionary_bytes_empty(keys: Seq<i32>, offsets: Seq<u64>, chars: Seq<u8>)
    ensures
        dictionary_bytes(keys, offsets, chars).len() == 0 <==> keys.len() == 0,
{
}

/// Tests the invariant of the inputs of a symbol column.
pub fn check_symbol_input(column_values: &[i32], offsets: &[u64], chars: &[u8]) -> (valid: bool)
    ensures
        valid == valid_symbol_input(column_values@, offsets@, chars@),
{
    let mut row: usize = 0;
    while row < column_values.len()
        invariant
            row <= column_values@.len(),
            forall|r: int|
                0 <= r < row && is_present(#[trigger] column_values@[r]) ==> entry_in_bounds(
                    offsets@,
                    chars@,
                    column_values@[r] as int,
                ),
        decreases column_values@.len() - row,
    {
        let key = column_values[row];
        if key > -1 {
            if key as usize >= offsets.len() {
                return false;
            }
            let offset = offsets[key as usize];
            if chars.len() < 4 || offset > (chars.len() - 4) as u64 {
                return false;
            }
            let len = read_i32_le(chars, offset as usize);
            if len < 0 || len as usize > chars.len() - 4 - offset as usize {
                return false;
            }
        }
        row = row + 1;
    }
    true
}

/// Reads the string of `key` from the heap and transcodes it to UTF-8.
fn symbol_utf8(offsets: &[u64], chars: &[u8], key: i32) -> (r: Option<Vec<u8>>)
    requires
        is_present(key),
        entry_in_bounds(offsets@, chars@, key as int),
    ensures
        match r {
            Some(bytes) => symbol_value(offsets@, chars@, key as int) matches Some(value)
                && bytes@ == encode_utf8(value) && bytes@.len() <= u32::MAX,
            None => symbol_value(offsets@, chars@, key as int) is None,
        },
{
    let heap_len = chars.len();
    let raw_offset = offsets[key as usize];
    assert(raw_offset + 4 <= heap_len);
    let offset = raw_offset as usize;
    let size = read_i32_le(chars, offset) as usize;
    if size % 2 != 0 {
        return None;
    }
    let start = offset + 4;
    let count = size / 2;
    let ghost data = entry_data(offsets@, chars@, key as int);
    let mut units: Vec<u16> = Vec::new();
    let mut i: usize = 0;
    while i < count
        invariant
            i <= count,
            count == size / 2,
            size % 2 == 0,
            heap_len == chars@.len(),
            start + size <= heap_len,
            data == chars@.subrange(start as int, start + size),
            units@ == utf16_le_units(data).take(i as int),
        decreases count - i,
    {
        let low = chars[start + 2 * i];
        let high = chars[start + 2 * i + 1];
        units.push(low as u16 + 0x100 * (high as u16));
        proof {
            assert(data[2 * i] == low);
            assert(data[2 * i + 1] == high);
            assert(units@ =~= utf16_le_units(data).take(i + 1));
        }
        i = i + 1;
    }
    proof {
        assert(units@ =~= utf16_le_units(data));
    }
    utf16_to_utf8(units.as_slice())
}

/// Deduplicates the keys of a symbol column into a dictionary.
///
/// Appends to `page`, for each distinct key of a non-null row in the order of
/// first use, the entry of its string, and returns for each non-null row the
/// position of its string in the dictionary, with the greatest such position.
/// Where no row holds a value, the greatest position is reported as 0, as for
/// a dictionary of one string: `page` tells the two apart.
///
/// Fails, and leaves `page` as it is, where the string of a row is not
/// well-formed UTF-16.
pub fn encode_dict(column_vals: &[i32], offsets: &[u64], chars: &[u8], page: &mut Vec<u8>) -> (r:
    ParquetResult<(Vec<u32>, u32)>)
    requires
        valid_symbol_input(column_vals@, offsets@, chars@),
    ensures
        match r {
            Ok((indices, max_index)) => {
                &&& all_decodable(column_vals@, offsets@, chars@)
                &&& indices@ == local_indices(column_vals@)
                &&& max_index == max_local_index(column_vals@)
                &&& final(page)@ == old(page)@ + dictionary_bytes(
                    dictionary_keys(column_vals@),
                    offsets@,
                    chars@,
                )
            },
            Err(e) => {
                &&& e == ParquetError::InvalidUtf16
                &&& !all_decodable(column_vals@, offsets@, chars@)
                &&& final(page)@ == old(page)@
            },
        },
{
    let start = page.len();
    let mut indices: Vec<u32> = Vec::new();
    let mut keys_to_local: HashMap<i32, u32> = HashMap::new();
    let mut serialised: u32 = 0;
    let mut row: usize = 0;
    let ghost mut keys: Seq<i32> = seq![];
    proof {
        assert(column_vals@.take(0) =~= Seq::<i32>::empty());
        assert(page@ =~= old(page)@ + dictionary_bytes(keys, offsets@, chars@));
    }
    while row < column_vals.len()
        invariant
            row <= column_vals@.len(),
            valid_symbol_input(column_vals@, offsets@, chars@),
            start == old(page)@.len(),
            keys == dictionary_keys(column_vals@.take(row as int)),
            keys.no_duplicates(),
            serialised == keys.len(),
            forall|key: i32| #[trigger] keys_to_local@.contains_key(key) <==> keys.contains(key),
            forall|at: int|
                0 <= at < keys.len() ==> #[trigger] keys_to_local@[keys[at]] == at,
            forall|at: int|
                0 <= at < keys.len() ==> symbol_value(offsets@, chars@, #[trigger] keys[at] as int)
                    is Some,
            indices@ == indices_in(keys, column_vals@.take(row as int)),
            page@ == old(page)@ + dictionary_bytes(keys, offsets@, chars@),
        decreases column_vals@.len() - row,
    {
        let key = column_vals[row];
        let ghost seen = column_vals@.take(row as int);
        let ghost next = column_vals@.take(row + 1);
        proof {
            assert(next.drop_last() =~= seen);
            assert(next.last() == key);
            lemma_dictionary_keys_distinct(seen);
            lemma_dictionary_keys_distinct(next);
            lemma_dictionary_keys_bounded(next);
        }
        if key > -1 {
            let known = keys_to_local.get(&key);
            let local_key = match known {
                Some(local) => {
                    proof {
                        let at = choose|i: int| 0 <= i < keys.len() && keys[i] == key;
                        lemma_index_of(keys, at);
                    }
                    *local
                },
                None => {
                    assert(is_present(column_vals@[row as int]));
                    match symbol_utf8(offsets, chars, key) {
                        None => {
                            page.truncate(start);
                            assert(page@ =~= old(page)@);
                            return Err(ParquetError::InvalidUtf16);
                        },
                        Some(value) => {
                            let ghost before = keys;
                            push_u32_le(page, value.len() as u32);
                            page.extend_from_slice(value.as_slice());
                            keys_to_local.insert(key, serialised);
                            let local = serialised;
                            proof {
                                keys = keys.push(key);
                                assert(keys.drop_last() =~= before);
                                assert(page@ =~= old(page)@ + dictionary_bytes(
                                    keys,
                                    offsets@,
                                    chars@,
                                ));
                                assert forall|r: int|
                                    0 <= r < seen.len() && is_present(
                                        #[trigger] seen[r],
                                    ) implies before.contains(seen[r]) by {
                                    assert(seen.contains(seen[r]));
                                }
                                lemma_indices_in_push(before, key, seen);
                                lemma_index_of(keys, before.len() as int);
                                assert forall|k: i32| #[trigger]
                                    keys_to_local@.contains_key(k) <==> keys.contains(k) by {
                                    if keys.contains(k) {
                                        let at = choose|i: int| 0 <= i < keys.len() && keys[i] == k;
                                        if at < before.len() {
                                            assert(before.contains(k));
                                        }
                                    }
                                    if before.contains(k) {
                                        let at = choose|i: int|
                                            0 <= i < before.len() && before[i] == k;
                                        assert(keys[at] == k);
                                    }
                                    if k == key {
                                        assert(keys[before.len() as int] == k);
                                    }
                                }
                            }
                            serialised = serialised + 1;
                            local
                        },
                    }
                },
            };
            indices.push(local_key);
        }
        row = row + 1;
    }
    proof {
        assert(column_vals@.take(row as int) =~= column_vals@);
        lemma_dictionary_keys_distinct(column_vals@);
        assert forall|r: int|
            0 <= r < column_vals@.len() && is_present(
                #[trigger] column_vals@[r],
            ) implies symbol_value(offsets@, chars@, column_vals@[r] as int) is Some by {
            assert(column_vals@.contains(column_vals@[r]));
            assert(keys.contains(column_vals@[r]));
        }
    }
    if serialised == 0 {
        return Ok((indices, 0));
    }
    Ok((indices, serialised - 1))
}

/// The presence flags of the rows of a symbol column, and the number of null
/// rows.
pub fn presence_bitmap(column_values: &[i32]) -> (r: (Vec<bool>, usize))
    ensures
        r.0@ == presence(column_values@),
        r.1 == null_count(column_values@),
        r.1 <= column_values@.len(),
{
    let mut present: Vec<bool> = Vec::new();
    let mut nulls: usize = 0;
    let mut row: usize = 0;
    proof {
        assert(column_values@.take(0) =~= Seq::<i32>::empty());
    }
    while row < column_values.len()
        invariant
            row <= column_values@.len(),
            present@ == presence(column_values@.take(row as int)),
            nulls == null_count(column_values@.take(row as int)),
            nulls <= row,
        decreases column_values@.len() - row,
    {
        let key = column_values[row];
        proof {
            assert(column_values@.take(row + 1).drop_last() =~= column_values@.take(row as int));
        }
        if key > -1 {
            present.push(true);
        } else {
            nulls = nulls + 1;
            present.push(false);
        }
        row = row + 1;
        assert(present@ =~= presence(column_values@.take(row as int)));
    }
    proof {
        assert(column_values@.take(row as int) =~= column_values@);
    }
    (present, nulls)
}

/// Wraps the buffers of a symbol column chunk as its pages: the dictionary
/// page, then the data page. The dictionary holds `max_key + 1` strings, and
/// none where its buffer is empty.
pub fn make_pages(
    dict_buffer: Vec<u8>,
    max_key: u32,
    data_buffer: Vec<u8>,
    num_rows: usize,
    null_count: usize,
    definition_levels_byte_length: usize,
) -> (pages: Vec<Page>)
    requires
        max_key < u32::MAX,
    ensures
        pages@.len() == 2,
        pages@[0]@ == PageView::Dict(
            DictPageView {
                buffer: dict_buffer@,
                num_values: if dict_buffer@.len() > 0 {
                    (max_key + 1) as nat
                } else {
                    0
                },
                is_sorted: false,
            },
        ),
        pages@[1]@ == PageView::Data(
            DataPageView {
                buffer: data_buffer@,
                num_values: num_rows as nat,
                num_rows: num_rows as nat,
                null_count: null_count as nat,
                definition_levels_byte_length: definition_levels_byte_length as nat,
                encoding: Encoding::RleDictionary,
            },
        ),
{
    let uniq_vals: usize = if dict_buffer.len() > 0 {
        (max_key + 1) as usize
    } else {
        0
    };
    let dict_page = DictPage { buffer: dict_buffer, num_values: uniq_vals, is_sorted: false };
    let data_page = DataPage {
        buffer: data_buffer,
        num_values: num_rows,
        num_rows,
        null_count,
        definition_levels_byte_length,
        encoding: Encoding::RleDictionary,
    };
    let mut pages: Vec<Page> = Vec::new();
    pages.push(Page::Dict(dict_page));
    pages.push(Page::Data(data_page));
    pages
}

/// Encodes a symbol column chunk as a dictionary page followed by a data page.
///
/// The dictionary page holds each distinct string of the non-null rows once,
/// in the order of first use. The data page holds the definition levels, which
/// mark the non-null rows, one byte with the bit width of the indices, and for
/// each non-null row the index of its string in the dictionary, packed at that
/// width.
///
/// Fails with `InvalidUtf16` exactly where the string of a row is not
/// well-formed UTF-16, and otherwise with `Format` exactly where the
/// definition levels are too long for their length header, which the second
/// layout does not have. On every other input the pages are returned.
pub fn symbol_to_pages(
    column_values: &[i32],
    offsets: &[u64],
    chars: &[u8],
    options: WriteOptions,
) -> (r: ParquetResult<Vec<Page>>)
    requires
        valid_symbol_input(column_values@, offsets@, chars@),
    ensures
        match r {
            Ok(pages) => {
                &&& all_decodable(column_values@, offsets@, chars@)
                &&& levels_fit(hybrid_rle_bools(presence(column_values@)).len(), options.version)
                &&& pages@.len() == 2
                &&& pages@[0]@ == PageView::Dict(
                    symbol_dict_page(column_values@, offsets@, chars@),
                )
                &&& pages@[1]@ == PageView::Data(
                    symbol_data_page(column_values@, options.version),
                )
            },
            Err(ParquetError::InvalidUtf16) => !all_decodable(column_values@, offsets@, chars@),
            Err(ParquetError::Format) => {
                &&& all_decodable(column_values@, offsets@, chars@)
                &&& !levels_fit(hybrid_rle_bools(presence(column_values@)).len(), options.version)
            },
        },
{
    let mut dict_buffer: Vec<u8> = Vec::new();
    let (keys, max_key) = match encode_dict(column_values, offsets, chars, &mut dict_buffer) {
        Ok(encoded) => encoded,
        Err(e) => {
            return Err(e);
        },
    };
    let (present, null_count) = presence_bitmap(column_values);

    let mut data_buffer: Vec<u8> = Vec::new();
    match encode_definition_levels(&mut data_buffer, present.as_slice(), options.version) {
        Ok(_) => {},
        Err(e) => {
            return Err(e);
        },
    }
    let definition_levels_byte_length = data_buffer.len();

    let num_bits = get_bit_width(max_key as u64);
    proof {
        lemma_dictionary_keys_bounded(column_values@);
        lemma_dictionary_bytes_empty(dictionary_keys(column_values@), offsets@, chars@);
        lemma_local_indices_fit(column_values@);
    }
    // The bit width as a single byte, followed by the encoded indices.
    data_buffer.push(num_bits as u8);
    match encode_u32(&mut data_buffer, keys.as_slice(), num_bits) {
        Ok(_) => {},
        Err(_) => {
            return Err(ParquetError::Format);
        },
    }
    assert(data_buffer@ =~= symbol_data_buffer(column_values@, options.version));
    assert(dict_buffer@ =~= dictionary_bytes(dictionary_keys(column_values@), offsets@, chars@));
    Ok(
        make_pages(
            dict_buffer,
            max_key,
            data_buffer,
            column_values.len(),
            null_count,
            definition_levels_byte_length,
        ),
    )
}

} // verus!
