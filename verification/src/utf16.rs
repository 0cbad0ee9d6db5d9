//! UTF-16 text out of raw bytes, read leniently.

use vstd::prelude::*;

verus! {

/// The UTF-16 code units that `bytes` hold, each in two bytes, the low one
/// first. A last odd byte holds none.
pub open spec fn utf16_units(bytes: Seq<u8>) -> Seq<u16> {
    Seq::new(bytes.len() / 2, |i: int| (bytes[2 * i] as int + 256 * bytes[2 * i + 1] as int) as u16)
}

/// The first unit of a surrogate pair.
pub open spec fn is_high_surrogate(u: u16) -> bool {
    0xD800 <= u <= 0xDBFF
}

/// The second unit of a surrogate pair.
pub open spec fn is_low_surrogate(u: u16) -> bool {
    0xDC00 <= u <= 0xDFFF
}

/// The character that a surrogate pair stands for.
pub open spec fn pair_char(high: u16, low: u16) -> char {
    (0x10000 + (high - 0xD800) * 0x400 + (low - 0xDC00)) as char
}

/// The text that UTF-16 code units stand for, read leniently: a surrogate
/// pair is one character, a unit outside the surrogates is the character of
/// that code, and a surrogate without its partner is the replacement
/// character U+FFFD.
pub open spec fn utf16_lossy(units: Seq<u16>) -> Seq<char>
    decreases units.len(),
{
    if units.len() == 0 {
        Seq::empty()
    } else if is_high_surrogate(units[0]) && units.len() > 1 && is_low_surrogate(units[1]) {
        seq![pair_char(units[0], units[1])] + utf16_lossy(units.skip(2))
    } else if is_high_surrogate(units[0]) || is_low_surrogate(units[0]) {
        seq!['\u{FFFD}'] + utf16_lossy(units.skip(1))
    } else {
        seq![units[0] as char] + utf16_lossy(units.skip(1))
    }
}

/// `char::from_u32`: the character with the code `i`, where `i` is a Unicode
/// scalar value, that is a code up to U+10FFFF outside the surrogates.
pub assume_specification[ char::from_u32 ](i: u32) -> (r: Option<char>)
    ensures
        r == (if i < 0xD800 || (0xE000 <= i && i <= 0x10FFFF) {
            Some(i as char)
        } else {
            None
        }),
;

/// The code units in `bytes`.
pub fn utf16_units_from_le(bytes: &Vec<u8>) -> (units: Vec<u16>)
    ensures
        units@ == utf16_units(bytes@),
{
    let count: usize = bytes.len() / 2;
    let mut units: Vec<u16> = Vec::new();
    let mut i: usize = 0;
    while i < count
        invariant
            i <= count,
            count == bytes@.len() / 2,
            bytes@.len() <= usize::MAX,
            units@.len() == i,
            forall|j: int| 0 <= j < i ==> (#[trigger] units@[j]) == utf16_units(bytes@)[j],
        decreases count - i,
    {
        let unit: u16 = bytes[2 * i] as u16 + 256 * (bytes[2 * i + 1] as u16);
        units.push(unit);
        i += 1;
    }
    assert(units@ =~= utf16_units(bytes@));
    units
}

/// Decodes UTF-16 code units leniently.
pub fn decode_utf16_lossy(units: &Vec<u16>) -> (text: Vec<char>)
    ensures
        text@ == utf16_lossy(units@),
{
    let mut text: Vec<char> = Vec::new();
    let mut i: usize = 0;
    proof {
        assert(units@.skip(0) == units@);
        assert(text@ + utf16_lossy(units@) == utf16_lossy(units@));
    }
    while i < units.len()
        invariant
            i <= units@.len(),
            text@ + utf16_lossy(units@.skip(i as int)) == utf16_lossy(units@),
        decreases units.len() - i,
    {
        let unit = units[i];
        let ghost rest = units@.skip(i as int);
        proof {
            assert(rest[0] == unit);
            assert(rest.skip(1) == units@.skip(i + 1));
        }
        if unit >= 0xD800 && unit <= 0xDBFF && i + 1 < units.len() && units[i + 1] >= 0xDC00
            && units[i + 1] <= 0xDFFF {
            let low = units[i + 1];
            proof {
                assert(rest[1] == low);
                assert(rest.skip(2) == units@.skip(i + 2));
            }
            let code: u32 = 0x10000 + (unit as u32 - 0xD800) * 0x400 + (low as u32 - 0xDC00);
            let c = match char::from_u32(code) {
                Some(c) => c,
                None => '\u{FFFD}',
            };
            proof {
                assert(text@.push(c) + utf16_lossy(units@.skip(i + 2)) == text@ + (seq![c]
                    + utf16_lossy(units@.skip(i + 2))));
            }
            text.push(c);
            i += 2;
        } else {
            let c = match char::from_u32(unit as u32) {
                Some(c) => c,
                None => '\u{FFFD}',
            };
            proof {
                assert(text@.push(c) + utf16_lossy(units@.skip(i + 1)) == text@ + (seq![c]
                    + utf16_lossy(units@.skip(i + 1))));
            }
            text.push(c);
            i += 1;
        }
    }
    proof {
        assert(units@.skip(i as int).len() == 0);
        assert(text@ + Seq::<char>::empty() == text@);
    }
    text
}

/// The UTF-16 bytes of a text whose characters take one code unit each: two
/// bytes a character, the low one first.
pub open spec fn utf16_bytes(text: Seq<char>) -> Seq<u8> {
    Seq::new(
        2 * text.len(),
        |i: int|
            if i % 2 == 0 {
                (text[i / 2] as int % 256) as u8
            } else {
                (text[i / 2] as int / 256) as u8
            },
    )
}

/// Code units outside the surrogates decode to the characters of their codes.
pub proof fn lemma_utf16_lossy_plain(units: Seq<u16>)
    requires
        forall|i: int|
            0 <= i < units.len() ==> !is_high_surrogate(#[trigger] units[i]) && !is_low_surrogate(
                units[i],
            ),
    ensures
        utf16_lossy(units) == Seq::new(units.len(), |i: int| units[i] as char),
    decreases units.len(),
{
    if units.len() > 0 {
        let rest = units.skip(1);
        assert forall|i: int| 0 <= i < rest.len() implies !is_high_surrogate(#[trigger] rest[i])
            && !is_low_surrogate(rest[i]) by {
            assert(rest[i] == units[i + 1]);
        }
        lemma_utf16_lossy_plain(rest);
        assert(!is_high_surrogate(units[0]) && !is_low_surrogate(units[0]));
        assert(utf16_lossy(units) =~= Seq::new(units.len(), |i: int| units[i] as char));
    } else {
        assert(utf16_lossy(units) =~= Seq::new(units.len(), |i: int| units[i] as char));
    }
}

/// The code of a character is a Unicode scalar value: no surrogate, and not
/// beyond U+10FFFF.
pub proof fn lemma_char_code(c: char)
    ensures
        0 <= c as int <= 0x10FFFF,
        !(0xD800 <= c as int <= 0xDFFF),
{
}

/// Writing a text of one code unit a character as UTF-16 bytes and decoding
/// the bytes gives the text back.
pub proof fn lemma_utf16_round_trip(text: Seq<char>)
    requires
        forall|i: int| 0 <= i < text.len() ==> (#[trigger] text[i]) as int <= 0xFFFF,
    ensures
        utf16_bytes(text).len() == 2 * text.len(),
        utf16_lossy(utf16_units(utf16_bytes(text))) == text,
{
    let units = utf16_units(utf16_bytes(text));
    assert(units.len() == text.len());
    assert forall|i: int| 0 <= i < units.len() implies (#[trigger] units[i]) == text[i] as int by {
        let c = text[i] as int;
        let bytes = utf16_bytes(text);
        lemma_char_code(text[i]);
        assert((2 * i) / 2 == i && (2 * i) % 2 == 0);
        assert((2 * i + 1) / 2 == i && (2 * i + 1) % 2 == 1);
        assert(bytes[2 * i] == (c % 256) as u8);
        assert(bytes[2 * i + 1] == (c / 256) as u8);
        assert(units[i] == (bytes[2 * i] as int + 256 * bytes[2 * i + 1] as int) as u16);
        assert(c % 256 + 256 * (c / 256) == c);
    }
    assert forall|i: int| 0 <= i < units.len() implies !is_high_surrogate(#[trigger] units[i])
        && !is_low_surrogate(units[i]) by {
        assert(units[i] == text[i] as int);
        lemma_char_code(text[i]);
    }
    lemma_utf16_lossy_plain(units);
    assert forall|i: int| 0 <= i < text.len() implies (#[trigger] units[i]) as char == text[i] by {
        assert(units[i] == text[i] as int);
    }
    assert(utf16_lossy(units) =~= text);
}

} // verus!
