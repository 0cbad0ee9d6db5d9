//! What the typed reads give on a source whose bytes are known: the round
//! trips between writing a value into memory and reading it back.

use vstd::prelude::*;
use crate::address::Address;
use crate::decode::{
    array_bytes, element, lemma_array_bytes_elements, lemma_number_round_trip,
    lemma_pow256_widths, number_bytes, representable,
};
use crate::uleb128::{continues, is_uleb128, uleb128_value, ULEB128_MAX_BYTES};
use crate::utf16::{lemma_utf16_round_trip, utf16_bytes};
use crate::error::{OsFault, ProcessError};
use crate::outcome::{
    all_continue, array_fits, array_outcome, array_read, byte_read, decoded, number,
    read_outcome, reads_bytewise, reads_value, shift, string_fits, string_outcome,
    string_ptr_outcome, string_ptr_read, string_read, uleb128_outcome,
};
use crate::process::RawReader;

verus! {

/// Is `expect` the one outcome of a read of `len` bytes at `a`: can the read
/// not fail, and hand back nothing else?
pub open spec fn exact_read<P: RawReader>(p: &P, a: usize, len: usize, expect: Seq<u8>) -> bool {
    &&& forall|bytes: Seq<u8>| #[trigger] p.may_read(a, len, bytes) ==> bytes == expect
    &&& forall|fault: OsFault| !#[trigger] p.may_fail(a, len, fault)
}

/// Does the source hold `content` at the address `base`: does every read that
/// lies within the range give the bytes of `content` under it?
pub open spec fn holds<P: RawReader>(p: &P, base: usize, content: Seq<u8>) -> bool {
    &&& base + content.len() <= usize::MAX
    &&& forall|a: usize, len: usize|
        base <= a && a + len <= base + content.len() ==> #[trigger] exact_read(
            p,
            a,
            len,
            content.subrange(a - base, a - base + len),
        )
}

/// A source that holds a content holds each part of it.
pub proof fn lemma_holds_part<P: RawReader>(p: &P, base: usize, content: Seq<u8>, from: int, to: int)
    requires
        holds(p, base, content),
        0 <= from <= to <= content.len(),
    ensures
        holds(p, (base + from) as usize, content.subrange(from, to)),
{
    let part = content.subrange(from, to);
    let start = (base + from) as usize;
    assert forall|a: usize, len: usize| start <= a && a + len <= start + part.len() implies #[trigger] exact_read(
        p,
        a,
        len,
        part.subrange(a - start, a - start + len),
    ) by {
        assert(exact_read(p, a, len, content.subrange(a - base, a - base + len)));
        assert(part.subrange(a - start, a - start + len) == content.subrange(
            a - base,
            a - base + len,
        ));
    }
}

/// On a source that holds a content, a targeted read within it gives the
/// bytes under it, and cannot fail.
pub proof fn lemma_read_held<P: RawReader>(
    p: &P,
    base: usize,
    content: Seq<u8>,
    offset: int,
    len: usize,
    r: Result<Seq<u8>, ProcessError>,
)
    requires
        holds(p, base, content),
        0 <= offset,
        offset + len <= content.len(),
        read_outcome(p, shift(Ok(base), offset), len, r),
    ensures
        r == Ok::<Seq<u8>, ProcessError>(content.subrange(offset, offset + len)),
{
    let a = (base + offset) as usize;
    assert(shift(Ok(base), offset) == Ok::<usize, ProcessError>(a));
    assert(exact_read(p, a, len, content.subrange(a - base, a - base + len)));
}

/// On a source that holds a content, a number read within it is the number
/// that the bytes under it hold.
pub proof fn lemma_value_held<P: RawReader>(
    p: &P,
    base: usize,
    content: Seq<u8>,
    offset: int,
    width: usize,
    signed: bool,
    value: int,
)
    requires
        holds(p, base, content),
        0 <= offset,
        offset + width <= content.len(),
        reads_value(p, shift(Ok(base), offset), width, signed, value),
    ensures
        value == number(content.subrange(offset, offset + width), signed),
{
    let bytes = choose|bytes: Seq<u8>| #[trigger]
        read_outcome(p, shift(Ok(base), offset), width, Ok(bytes)) && value == number(
            bytes,
            signed,
        );
    lemma_read_held(p, base, content, offset, width, Ok(bytes));
}

/// Is `r` what reading a number of `width` bytes at `at` may come to?
pub open spec fn number_outcome<P: RawReader>(
    p: &P,
    at: Result<usize, ProcessError>,
    width: usize,
    signed: bool,
    r: Result<int, ProcessError>,
) -> bool {
    match r {
        Ok(value) => reads_value(p, at, width, signed, value),
        Err(e) => read_outcome(p, at, width, Err(e)),
    }
}

/// Round trip of the fixed-width numbers: where the source holds at an
/// address the little-endian bytes of a number, reading a number of that
/// width and kind at the address gives exactly that number. This holds for
/// every width and for signed and unsigned numbers alike.
pub proof fn lemma_number_read_back<P: RawReader>(
    p: &P,
    at: usize,
    width: usize,
    signed: bool,
    value: int,
    r: Result<int, ProcessError>,
)
    requires
        representable(value, width as nat, signed),
        holds(p, at, number_bytes(value, width as nat, signed)),
        number_outcome(p, Ok(at), width, signed, r),
    ensures
        r == Ok::<int, ProcessError>(value),
{
    let content = number_bytes(value, width as nat, signed);
    lemma_number_round_trip(value, width as nat, signed);
    assert(shift(Ok(at), 0) == Ok::<usize, ProcessError>(at));
    assert(content.subrange(0, width as int) == content);
    match r {
        Ok(v) => {
            lemma_value_held(p, at, content, 0, width, signed, v);
        },
        Err(e) => {
            lemma_read_held(p, at, content, 0, width, Err(e));
        },
    }
}

/// The sixteen bytes of an array header: four bytes that are not looked at,
/// the data pointer, four more that are not looked at, and the number of
/// elements.
pub open spec fn array_header(pad: Seq<u8>, ptr: i32, gap: Seq<u8>, count: i32) -> Seq<u8> {
    pad + number_bytes(ptr as int, 4, true) + gap + number_bytes(count as int, 4, true)
}

/// Round trip of the arrays: where the source holds an array header at an
/// address, and the bytes of the items 8 bytes after the data pointer that
/// the header names, reading the array at the address gives the bytes of the
/// items, and element by element the items themselves. This holds for every
/// number of items, and for every width and kind of element.
pub proof fn lemma_array_read_back<P: RawReader>(
    p: &P,
    at: usize,
    pad: Seq<u8>,
    gap: Seq<u8>,
    ptr: i32,
    items: Seq<int>,
    width: usize,
    signed: bool,
    r: Result<Seq<u8>, ProcessError>,
)
    requires
        pad.len() == 4,
        gap.len() == 4,
        items.len() <= i32::MAX,
        forall|i: int|
            0 <= i < items.len() ==> representable(#[trigger] items[i], width as nat, signed),
        holds(p, at, array_header(pad, ptr, gap, items.len() as i32)),
        0 <= ptr + 8,
        holds(p, (ptr + 8) as usize, array_bytes(items, width as nat, signed)),
        array_outcome(p, Ok(at), width, r),
    ensures
        r == Ok::<Seq<u8>, ProcessError>(array_bytes(items, width as nat, signed)),
        forall|i: int|
            0 <= i < items.len() ==> number(
                #[trigger] element(array_bytes(items, width as nat, signed), width as int, i),
                signed,
            ) == items[i],
{
    let here = Ok::<usize, ProcessError>(at);
    let count = items.len() as i32;
    let header = array_header(pad, ptr, gap, count);
    let data = array_bytes(items, width as nat, signed);
    lemma_pow256_widths();
    lemma_number_round_trip(ptr as int, 4, true);
    lemma_number_round_trip(count as int, 4, true);
    lemma_array_bytes_elements(items, width as nat, signed);
    assert(header.subrange(4, 8) == number_bytes(ptr as int, 4, true));
    assert(header.subrange(12, 16) == number_bytes(count as int, 4, true));
    assert forall|i: int| 0 <= i < items.len() implies number(
        #[trigger] element(data, width as int, i),
        signed,
    ) == items[i] by {
        lemma_number_round_trip(items[i], width as nat, signed);
    }
    if r matches Err(e) && read_outcome(p, shift(here, 4), 4, Err(e)) {
        lemma_read_held(p, at, header, 4, 4, Err(r->Err_0));
    } else if r matches Err(e) && read_outcome(p, shift(here, 12), 4, Err(e)) {
        lemma_read_held(p, at, header, 12, 4, Err(r->Err_0));
    } else {
        let (q, c) = choose|q: i32, c: i32| #[trigger] array_read(p, here, width, q, c, r);
        lemma_value_held(p, at, header, 4, 4, true, q as int);
        lemma_value_held(p, at, header, 12, 4, true, c as int);
        assert(q == ptr && c == count);
        assert(array_fits(count as int, width as int));
        let start = (ptr + 8) as usize;
        assert(Address::I32(ptr).spec_offset(8) == shift(Ok(start), 0));
        lemma_read_held(p, start, data, 0, (count * width) as usize, r);
        assert(data.subrange(0, data.len() as int) == data);
    }
}

/// The array round trip within one buffer: where the source holds, from
/// address 0 on, an array header whose data pointer is 8, followed at once by
/// the bytes of the items, so that the number of items stands at byte 12 and
/// the items start at byte 16, reading the array at address 0 gives the
/// items.
pub proof fn lemma_array_buffer_read_back<P: RawReader>(
    p: &P,
    pad: Seq<u8>,
    gap: Seq<u8>,
    items: Seq<int>,
    width: usize,
    signed: bool,
    r: Result<Seq<u8>, ProcessError>,
)
    requires
        pad.len() == 4,
        gap.len() == 4,
        items.len() <= i32::MAX,
        forall|i: int|
            0 <= i < items.len() ==> representable(#[trigger] items[i], width as nat, signed),
        holds(
            p,
            0,
            array_header(pad, 8, gap, items.len() as i32) + array_bytes(
                items,
                width as nat,
                signed,
            ),
        ),
        array_outcome(p, Ok(0), width, r),
    ensures
        r == Ok::<Seq<u8>, ProcessError>(array_bytes(items, width as nat, signed)),
        forall|i: int|
            0 <= i < items.len() ==> number(
                #[trigger] element(array_bytes(items, width as nat, signed), width as int, i),
                signed,
            ) == items[i],
{
    let header = array_header(pad, 8, gap, items.len() as i32);
    let data = array_bytes(items, width as nat, signed);
    let buffer = header + data;
    lemma_pow256_widths();
    lemma_number_round_trip(8, 4, true);
    lemma_number_round_trip(items.len() as int, 4, true);
    assert(header.len() == 16);
    assert(buffer.subrange(0, 16) == header);
    assert(buffer.subrange(16, buffer.len() as int) == data);
    lemma_holds_part(p, 0, buffer, 0, 16);
    lemma_holds_part(p, 0, buffer, 16, buffer.len() as int);
    lemma_array_read_back(p, 0, pad, gap, 8, items, width, signed, r);
}

/// The bytes of a string structure: four bytes that are not looked at, the
/// number of characters, and the characters in UTF-16.
pub open spec fn string_structure(pad: Seq<u8>, text: Seq<char>) -> Seq<u8> {
    pad + number_bytes(text.len() as int, 4, false) + utf16_bytes(text)
}

/// Round trip of the strings, and the size guard: where the source holds at
/// an address a string structure whose text takes one code unit a character,
/// reading the string at the address gives exactly the text, unless the
/// text is longer than the limit: then, and only then, the read is refused
/// with `StringTooLarge`.
pub proof fn lemma_string_read_back<P: RawReader>(
    p: &P,
    at: usize,
    pad: Seq<u8>,
    text: Seq<char>,
    limit: Option<usize>,
    r: Result<Seq<char>, ProcessError>,
)
    requires
        pad.len() == 4,
        text.len() <= u32::MAX,
        forall|i: int| 0 <= i < text.len() ==> (#[trigger] text[i]) as int <= 0xFFFF,
        holds(p, at, string_structure(pad, text)),
        string_outcome(p, Ok(at), limit, r),
    ensures
        r == (if limit matches Some(max) && text.len() > max {
            Err::<Seq<char>, ProcessError>(ProcessError::StringTooLarge)
        } else {
            Ok::<Seq<char>, ProcessError>(text)
        }),
{
    let here = Ok::<usize, ProcessError>(at);
    let whole = string_structure(pad, text);
    lemma_pow256_widths();
    lemma_number_round_trip(text.len() as int, 4, false);
    lemma_utf16_round_trip(text);
    assert(whole.subrange(4, 8) == number_bytes(text.len() as int, 4, false));
    assert(whole.subrange(8, 8 + 2 * text.len() as int) == utf16_bytes(text));
    if r matches Err(e) && read_outcome(p, shift(here, 4), 4, Err(e)) {
        lemma_read_held(p, at, whole, 4, 4, Err(r->Err_0));
    } else {
        let count = choose|count: int| #[trigger] string_read(p, here, limit, count, r);
        lemma_value_held(p, at, whole, 4, 4, false, count);
        assert(count == text.len());
        if string_fits(count, limit) {
            let data = choose|data: Result<Seq<u8>, ProcessError>| #[trigger]
                read_outcome(p, shift(here, 8), (2 * count) as usize, data) && r == decoded(data);
            lemma_read_held(p, at, whole, 8, (2 * count) as usize, data);
        }
    }
}

/// Round trip of the strings behind a pointer: where the source holds at an
/// address the four bytes of a pointer, and at the address that the pointer
/// names a string structure whose text takes one code unit a character,
/// reading the string through the pointer gives exactly the text.
pub proof fn lemma_string_from_ptr_read_back<P: RawReader>(
    p: &P,
    at: usize,
    ptr: i32,
    pad: Seq<u8>,
    text: Seq<char>,
    r: Result<Seq<char>, ProcessError>,
)
    requires
        pad.len() == 4,
        text.len() <= u32::MAX,
        forall|i: int| 0 <= i < text.len() ==> (#[trigger] text[i]) as int <= 0xFFFF,
        holds(p, at, number_bytes(ptr as int, 4, true)),
        0 <= ptr,
        holds(p, ptr as usize, string_structure(pad, text)),
        string_ptr_outcome(p, Ok(at), r),
    ensures
        r == Ok::<Seq<char>, ProcessError>(text),
{
    let here = Ok::<usize, ProcessError>(at);
    let field = number_bytes(ptr as int, 4, true);
    lemma_pow256_widths();
    lemma_number_round_trip(ptr as int, 4, true);
    assert(shift(here, 0) == here);
    assert(field.subrange(0, 4) == field);
    if r matches Err(e) && read_outcome(p, here, 4, Err(e)) {
        lemma_read_held(p, at, field, 0, 4, Err(r->Err_0));
    } else {
        let q = choose|q: i32| #[trigger] string_ptr_read(p, here, q, r);
        lemma_value_held(p, at, field, 0, 4, true, q as int);
        assert(q == ptr);
        assert(Address::I32(ptr).spec_to_usize() == Ok::<usize, ProcessError>(ptr as usize));
        lemma_string_read_back(p, ptr as usize, pad, text, None, r);
    }
}

/// The pointer round trip within one buffer: where the source holds, from
/// address 0 on, the four bytes of a pointer, any bytes up to the address
/// that the pointer names, and from there a string structure whose text
/// takes one code unit a character, reading the string through the pointer
/// at address 0 gives exactly the text.
pub proof fn lemma_string_from_ptr_buffer_read_back<P: RawReader>(
    p: &P,
    ptr: i32,
    filler: Seq<u8>,
    pad: Seq<u8>,
    text: Seq<char>,
    r: Result<Seq<char>, ProcessError>,
)
    requires
        ptr >= 4,
        filler.len() == ptr - 4,
        pad.len() == 4,
        text.len() <= u32::MAX,
        forall|i: int| 0 <= i < text.len() ==> (#[trigger] text[i]) as int <= 0xFFFF,
        holds(p, 0, number_bytes(ptr as int, 4, true) + filler + string_structure(pad, text)),
        string_ptr_outcome(p, Ok(0), r),
    ensures
        r == Ok::<Seq<char>, ProcessError>(text),
{
    let field = number_bytes(ptr as int, 4, true);
    let structure = string_structure(pad, text);
    let buffer = field + filler + structure;
    lemma_pow256_widths();
    lemma_number_round_trip(ptr as int, 4, true);
    assert(buffer.subrange(0, 4) == field);
    assert(buffer.subrange(ptr as int, buffer.len() as int) == structure);
    lemma_holds_part(p, 0, buffer, 0, 4);
    lemma_holds_part(p, 0, buffer, ptr as int, buffer.len() as int);
    lemma_string_from_ptr_read_back(p, 0, ptr, pad, text, r);
}

/// Reading a ULEB128 number back: where the source holds at an address the
/// bytes of one whole ULEB128 number, ten at most, reading a ULEB128 number
/// at the address gives the value of those bytes, seven bits a byte, cut to
/// its low 64 bits.
pub proof fn lemma_uleb128_read_back<P: RawReader>(
    p: &P,
    at: usize,
    bytes: Seq<u8>,
    r: Result<u64, ProcessError>,
)
    requires
        is_uleb128(bytes),
        bytes.len() <= ULEB128_MAX_BYTES,
        holds(p, at, bytes),
        uleb128_outcome(p, Ok(at), r),
    ensures
        r == Ok::<u64, ProcessError>((uleb128_value(bytes) % 0x1_0000_0000_0000_0000) as u64),
{
    let here = Ok::<usize, ProcessError>(at);
    let seen = choose|seen: Seq<u8>| #[trigger]
        reads_bytewise(p, here, seen) && seen.len() <= ULEB128_MAX_BYTES && match r {
            Ok(v) => is_uleb128(seen) && v == uleb128_value(seen) % 0x1_0000_0000_0000_0000,
            Err(e) => all_continue(seen) && if seen.len() == ULEB128_MAX_BYTES {
                e == ProcessError::ConvertionError
            } else {
                read_outcome(p, shift(here, seen.len() as int), 1, Err(e))
            },
        };
    assert forall|i: int| 0 <= i < seen.len() && i < bytes.len() implies seen[i] == bytes[i] by {
        assert(byte_read(p, here, seen, i));
        lemma_read_held(p, at, bytes, i, 1, Ok(seq![seen[i]]));
        assert(bytes.subrange(i, i + 1)[0] == bytes[i]);
        assert(seq![seen[i]][0] == seen[i]);
    }
    let last = bytes.len() - 1;
    if seen.len() < bytes.len() {
        if seen.len() > 0 {
            assert(continues(bytes[seen.len() - 1]));
            assert(seen[seen.len() - 1] == bytes[seen.len() - 1]);
        }
        if r is Err {
            lemma_read_held(p, at, bytes, seen.len() as int, 1, Err(r->Err_0));
        }
        assert(false);
    } else if seen.len() > bytes.len() {
        assert(seen[last] == bytes[last]);
        assert(continues(seen[last]));
        assert(false);
    } else {
        assert(seen =~= bytes);
        if r is Err {
            assert(continues(seen[last]));
        }
    }
}

} // verus!
