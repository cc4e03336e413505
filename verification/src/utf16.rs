//! UTF-16: the code units of a character sequence, and the character sequence
//! of well-formed code units.

use vstd::prelude::*;
use vstd::utf8::*;

verus! {

/// A code unit in the surrogate range, which stands for no character by itself.
pub open spec fn is_surrogate(unit: u16) -> bool {
    0xD800 <= unit <= 0xDFFF
}

/// The first unit of a surrogate pair.
pub open spec fn is_high_surrogate(unit: u16) -> bool {
    0xD800 <= unit <= 0xDBFF
}

/// The second unit of a surrogate pair.
pub open spec fn is_low_surrogate(unit: u16) -> bool {
    0xDC00 <= unit <= 0xDFFF
}

/// The scalar value that a surrogate pair stands for.
pub open spec fn pair_scalar(high: u16, low: u16) -> int {
    0x10000 + (high - 0xD800) * 0x400 + (low - 0xDC00)
}

/// The code units of one character: itself below `0x10000`, a surrogate pair
/// above.
pub open spec fn utf16_units(c: char) -> Seq<u16> {
    let v = c as int;
    if v < 0x10000 {
        seq![v as u16]
    } else {
        seq![(0xD800 + (v - 0x10000) / 0x400) as u16, (0xDC00 + (v - 0x10000) % 0x400) as u16]
    }
}

/// The UTF-16 encoding of a character sequence.
pub open spec fn utf16_of(chars: Seq<char>) -> Seq<u16>
    decreases chars.len(),
{
    if chars.len() == 0 {
        seq![]
    } else {
        utf16_units(chars[0]) + utf16_of(chars.drop_first())
    }
}

/// The character sequence that the code units encode, or `None` where a
/// surrogate stands unpaired.
pub open spec fn decode_utf16(units: Seq<u16>) -> Option<Seq<char>>
    decreases units.len(),
{
    if units.len() == 0 {
        Some(seq![])
    } else if !is_surrogate(units[0]) {
        match decode_utf16(units.skip(1)) {
            Some(rest) => Some(seq![units[0] as char] + rest),
            None => None,
        }
    } else if is_high_surrogate(units[0]) && units.len() >= 2 && is_low_surrogate(units[1]) {
        match decode_utf16(units.skip(2)) {
            Some(rest) => Some(seq![pair_scalar(units[0], units[1]) as char] + rest),
            None => None,
        }
    } else {
        None
    }
}

/// A character is a scalar value: at most `0x10FFFF` and no surrogate.
pub proof fn lemma_char_range(c: char)
    ensures
        0 <= c as int <= 0x10FFFF,
        !(0xD800 <= c as int <= 0xDFFF),
        c as u32 == c as int,
{
}

/// The UTF-16 encoding of a sequence with one more character is the encoding
/// of the sequence followed by the code units of the character.
proof fn lemma_utf16_of_push(chars: Seq<char>, c: char)
    ensures
        utf16_of(chars.push(c)) == utf16_of(chars) + utf16_units(c),
    decreases chars.len(),
{
    if chars.len() == 0 {
        assert(chars.push(c).drop_first() =~= chars);
        assert(utf16_of(chars.push(c)) =~= utf16_units(c) + utf16_of(chars));
    } else {
        assert(chars.push(c).drop_first() =~= chars.drop_first().push(c));
        lemma_utf16_of_push(chars.drop_first(), c);
        assert(utf16_of(chars.push(c)) =~= utf16_of(chars) + utf16_units(c));
    }
}

/// Encodes a string as UTF-16 code units.
pub fn encode_utf16(s: &str) -> (units: Vec<u16>)
    ensures
        units@ == utf16_of(s@),
{
    let mut units: Vec<u16> = Vec::new();
    for c in it: s.chars()
        invariant
            it.seq() == s@,
            units@ == utf16_of(s@.take(it.index() as int)),
    {
        let v: u32 = c as u32;
        proof {
            assert(0 <= it.index() < s@.len());
            assert(c == s@[it.index() as int]);
            lemma_utf16_of_push(s@.take(it.index() as int), c);
            assert(s@.take(it.index() + 1) =~= s@.take(it.index() as int).push(c));
            lemma_char_range(c);
        }
        if v < 0x10000 {
            units.push(v as u16);
        } else {
            let w: u32 = v - 0x10000;
            units.push((0xD800 + w / 0x400) as u16);
            units.push((0xDC00 + w % 0x400) as u16);
        }
    }
    proof {
        assert(s@.take(s@.len() as int) =~= s@);
    }
    units
}

/// Decoding the UTF-16 encoding of a character sequence gives the sequence
/// back.
pub proof fn lemma_utf16_round_trip(chars: Seq<char>)
    ensures
        decode_utf16(utf16_of(chars)) == Some(chars),
    decreases chars.len(),
{
    if chars.len() > 0 {
        let c = chars[0];
        let rest = chars.drop_first();
        let units = utf16_of(chars);
        lemma_char_range(c);
        lemma_utf16_round_trip(rest);
        let v = c as int;
        if v < 0x10000 {
            assert(units.skip(1) =~= utf16_of(rest));
            assert((v as u16) as char == c);
        } else {
            assert(units.skip(2) =~= utf16_of(rest));
            assert(pair_scalar(units[0], units[1]) == v);
        }
        assert(seq![c] + rest =~= chars);
    }
}

/// Encoding the characters that code units decode to gives the code units
/// back: no other code units stand for the same characters.
pub proof fn lemma_utf16_decode_is_injective(units: Seq<u16>)
    requires
        decode_utf16(units) is Some,
    ensures
        utf16_of(decode_utf16(units).unwrap()) == units,
    decreases units.len(),
{
    if units.len() > 0 {
        let chars = decode_utf16(units).unwrap();
        if !is_surrogate(units[0]) {
            let rest = decode_utf16(units.skip(1)).unwrap();
            lemma_utf16_decode_is_injective(units.skip(1));
            assert(chars.drop_first() =~= rest);
            assert(utf16_of(chars) =~= seq![units[0]] + units.skip(1));
            assert(seq![units[0]] + units.skip(1) =~= units);
        } else {
            let rest = decode_utf16(units.skip(2)).unwrap();
            lemma_utf16_decode_is_injective(units.skip(2));
            let c = pair_scalar(units[0], units[1]) as char;
            lemma_char_range(c);
            assert(chars.drop_first() =~= rest);
            assert(utf16_of(chars) =~= seq![units[0], units[1]] + units.skip(2));
            assert(seq![units[0], units[1]] + units.skip(2) =~= units);
        }
    }
}

/// The UTF-8 encoding of a sequence with one more character is the encoding
/// of the sequence followed by that of the character.
pub proof fn lemma_encode_utf8_push(chars: Seq<char>, c: char)
    ensures
        encode_utf8(chars.push(c)) == encode_utf8(chars) + encode_scalar(c as u32),
    decreases chars.len(),
{
    if chars.len() == 0 {
        assert(chars.push(c).drop_first() =~= chars);
        assert(encode_utf8(chars.push(c)) =~= encode_scalar(c as u32) + encode_utf8(chars));
    } else {
        assert(chars.push(c).drop_first() =~= chars.drop_first().push(c));
        lemma_encode_utf8_push(chars.drop_first(), c);
        assert(encode_utf8(chars.push(c)) =~= encode_utf8(chars) + encode_scalar(c as u32));
    }
}

/// What decoding gives for `done` followed by what the remaining units decode
/// to.
pub open spec fn decoded_after(done: Seq<char>, rest: Option<Seq<char>>) -> Option<Seq<char>> {
    match rest {
        Some(tail) => Some(done + tail),
        None => None,
    }
}

/// Appends the UTF-8 encoding of one scalar value.
fn push_utf8(out: &mut Vec<u8>, scalar: u32)
    requires
        is_scalar(scalar),
    ensures
        final(out)@ == old(out)@ + encode_scalar(scalar),
{
    if scalar <= 0x7F {
        assert(scalar & 0x7F < 0x100) by (bit_vector);
        out.push((scalar & 0x7F) as u8);
    } else if scalar <= 0x7FF {
        assert((scalar >> 6) & 0x1F < 0x100 && scalar & 0x3F < 0x100) by (bit_vector);
        out.push(0xC0 | ((scalar >> 6) & 0x1F) as u8);
        out.push(0x80 | (scalar & 0x3F) as u8);
    } else if scalar <= 0xFFFF {
        assert((scalar >> 12) & 0x0F < 0x100 && (scalar >> 6) & 0x3F < 0x100 && scalar & 0x3F
            < 0x100) by (bit_vector);
        out.push(0xE0 | ((scalar >> 12) & 0x0F) as u8);
        out.push(0x80 | ((scalar >> 6) & 0x3F) as u8);
        out.push(0x80 | (scalar & 0x3F) as u8);
    } else {
        assert((scalar >> 18) & 0x7 < 0x100 && (scalar >> 12) & 0x3F < 0x100 && (scalar >> 6)
            & 0x3F < 0x100 && scalar & 0x3F < 0x100) by (bit_vector);
        out.push(0xF0 | ((scalar >> 18) & 0x7) as u8);
        out.push(0x80 | ((scalar >> 12) & 0x3F) as u8);
        out.push(0x80 | ((scalar >> 6) & 0x3F) as u8);
        out.push(0x80 | (scalar & 0x3F) as u8);
    }
    assert(out@ =~= old(out)@ + encode_scalar(scalar));
}

/// Transcodes UTF-16 code units to UTF-8 bytes, or returns `None` where the
/// units are not well-formed UTF-16. A unit gives at most three bytes.
pub fn utf16_to_utf8(units: &[u16]) -> (r: Option<Vec<u8>>)
    ensures
        match r {
            Some(bytes) => decode_utf16(units@) matches Some(chars) && bytes@ == encode_utf8(
                chars,
            ) && bytes@.len() <= 3 * units@.len(),
            None => decode_utf16(units@) is None,
        },
{
    let n = units.len();
    let mut out: Vec<u8> = Vec::new();
    let ghost mut done: Seq<char> = seq![];
    let mut i: usize = 0;
    assert(units@.skip(0) =~= units@);
    while i < n
        invariant
            n == units@.len(),
            i <= n,
            out@ == encode_utf8(done),
            out@.len() <= 3 * i,
            decode_utf16(units@) == decoded_after(done, decode_utf16(units@.skip(i as int))),
        decreases n - i,
    {
        let unit = units[i];
        let ghost tail = units@.skip(i as int);
        let ghost before = done;
        assert(tail[0] == unit);
        if unit < 0xD800 || unit > 0xDFFF {
            let scalar: u32 = unit as u32;
            proof {
                let c = unit as char;
                lemma_char_range(c);
                assert(c as u32 == scalar);
                assert(tail.skip(1) =~= units@.skip(i + 1));
                lemma_encode_utf8_push(done, c);
                done = done.push(c);
                assert(forall|t: Seq<char>| before + (seq![c] + t) =~= before.push(c) + t);
            }
            push_utf8(&mut out, scalar);
            i = i + 1;
        } else if unit <= 0xDBFF && i + 1 < n && 0xDC00 <= units[i + 1] && units[i + 1] <= 0xDFFF {
            let low = units[i + 1];
            let scalar: u32 = 0x10000 + (unit as u32 - 0xD800) * 0x400 + (low as u32 - 0xDC00);
            proof {
                assert(tail[1] == low);
                let c = pair_scalar(unit, low) as char;
                lemma_char_range(c);
                assert(c as u32 == scalar);
                assert(tail.skip(2) =~= units@.skip(i + 2));
                lemma_encode_utf8_push(done, c);
                done = done.push(c);
                assert(forall|t: Seq<char>| before + (seq![c] + t) =~= before.push(c) + t);
            }
            push_utf8(&mut out, scalar);
            i = i + 2;
        } else {
            return None;
        }
    }
    proof {
        assert(done + Seq::<char>::empty() =~= done);
    }
    Some(out)
}

} // verus!
