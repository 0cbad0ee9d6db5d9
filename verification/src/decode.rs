//! Numbers out of raw bytes: little-endian integers of every width, alone
//! and in arrays, and the bytes that hold them.

use vstd::prelude::*;

verus! {

/// The number that `bytes` hold, least significant byte first.
pub open spec fn le_value(bytes: Seq<u8>) -> nat
    decreases bytes.len(),
{
    if bytes.len() == 0 {
        0
    } else {
        bytes[0] as nat + 256 * le_value(bytes.drop_first())
    }
}

/// 256 to the power `n`: one more than the largest number that `n` bytes hold.
pub open spec fn pow256(n: nat) -> nat
    decreases n,
{
    if n == 0 {
        1
    } else {
        256 * pow256((n - 1) as nat)
    }
}

/// The number that `bytes` hold when the top bit of the last byte is a sign:
/// the two's complement reading.
pub open spec fn le_signed(bytes: Seq<u8>) -> int {
    if 2 * le_value(bytes) < pow256(bytes.len()) {
        le_value(bytes) as int
    } else {
        le_value(bytes) - pow256(bytes.len())
    }
}

/// The powers of 256 for the widths of the integer types.
pub proof fn lemma_pow256_widths()
    ensures
        pow256(0) == 1,
        pow256(1) == 0x100,
        pow256(2) == 0x1_0000,
        pow256(4) == 0x1_0000_0000,
        pow256(8) == 0x1_0000_0000_0000_0000,
        pow256(16) == 0x1_0000_0000_0000_0000_0000_0000_0000_0000,
{
    reveal_with_fuel(pow256, 17);
}

/// A power of 256 does not shrink as the exponent grows.
pub proof fn lemma_pow256_grows(a: nat, b: nat)
    requires
        a <= b,
    ensures
        1 <= pow256(a) <= pow256(b),
    decreases b,
{
    if a < b {
        lemma_pow256_grows(a, (b - 1) as nat);
    } else if a > 0 {
        lemma_pow256_grows((a - 1) as nat, (a - 1) as nat);
    }
}

/// The unsigned number in the `width` bytes of `bytes` that start at `start`.
pub fn le_unsigned(bytes: &Vec<u8>, start: usize, width: usize) -> (v: u128)
    requires
        width <= 16,
        start + width <= bytes@.len(),
    ensures
        v == le_value(bytes@.subrange(start as int, start + width)),
        v < pow256(width as nat),
{
    assert(bytes@.len() == bytes.len());
    let end: usize = start + width;
    let mut acc: u128 = 0;
    let mut k: usize = end;
    while k > start
        invariant
            start <= k <= end,
            end == start + width,
            width <= 16,
            end <= bytes@.len(),
            acc == le_value(bytes@.subrange(k as int, end as int)),
            acc < pow256((end - k) as nat),
        decreases k,
    {
        k -= 1;
        proof {
            let s = bytes@.subrange(k as int, end as int);
            assert(s.drop_first() == bytes@.subrange(k + 1, end as int));
            assert(s[0] == bytes@[k as int]);
            lemma_pow256_grows((end - k) as nat, 16);
            lemma_pow256_widths();
        }
        acc = acc * 256 + bytes[k] as u128;
    }
    acc
}

/// The 8-bit number in the byte at `start`.
pub fn u8_from_le(bytes: &Vec<u8>, start: usize) -> (v: u8)
    requires
        start + 1 <= bytes@.len(),
    ensures
        v == le_value(bytes@.subrange(start as int, start + 1)),
{
    proof {
        lemma_pow256_widths();
    }
    le_unsigned(bytes, start, 1) as u8
}

/// The 16-bit number in the two bytes at `start`.
pub fn u16_from_le(bytes: &Vec<u8>, start: usize) -> (v: u16)
    requires
        start + 2 <= bytes@.len(),
    ensures
        v == le_value(bytes@.subrange(start as int, start + 2)),
{
    proof {
        lemma_pow256_widths();
    }
    le_unsigned(bytes, start, 2) as u16
}

/// The 32-bit number in the four bytes at `start`.
pub fn u32_from_le(bytes: &Vec<u8>, start: usize) -> (v: u32)
    requires
        start + 4 <= bytes@.len(),
    ensures
        v == le_value(bytes@.subrange(start as int, start + 4)),
{
    proof {
        lemma_pow256_widths();
    }
    le_unsigned(bytes, start, 4) as u32
}

/// The 64-bit number in the eight bytes at `start`.
pub fn u64_from_le(bytes: &Vec<u8>, start: usize) -> (v: u64)
    requires
        start + 8 <= bytes@.len(),
    ensures
        v == le_value(bytes@.subrange(start as int, start + 8)),
{
    proof {
        lemma_pow256_widths();
    }
    le_unsigned(bytes, start, 8) as u64
}

/// The 128-bit number in the sixteen bytes at `start`.
pub fn u128_from_le(bytes: &Vec<u8>, start: usize) -> (v: u128)
    requires
        start + 16 <= bytes@.len(),
    ensures
        v == le_value(bytes@.subrange(start as int, start + 16)),
{
    le_unsigned(bytes, start, 16)
}

/// The signed 8-bit number in the byte at `start`.
pub fn i8_from_le(bytes: &Vec<u8>, start: usize) -> (v: i8)
    requires
        start + 1 <= bytes@.len(),
    ensures
        v == le_signed(bytes@.subrange(start as int, start + 1)),
{
    proof {
        lemma_pow256_widths();
    }
    let raw = u8_from_le(bytes, start);
    if raw < 0x80 {
        raw as i8
    } else {
        ((raw - 0x80) as i8) + i8::MIN
    }
}

/// The signed 16-bit number in the two bytes at `start`.
pub fn i16_from_le(bytes: &Vec<u8>, start: usize) -> (v: i16)
    requires
        start + 2 <= bytes@.len(),
    ensures
        v == le_signed(bytes@.subrange(start as int, start + 2)),
{
    proof {
        lemma_pow256_widths();
    }
    let raw = u16_from_le(bytes, start);
    if raw < 0x8000 {
        raw as i16
    } else {
        ((raw - 0x8000) as i16) + i16::MIN
    }
}

/// The signed 32-bit number in the four bytes at `start`.
pub fn i32_from_le(bytes: &Vec<u8>, start: usize) -> (v: i32)
    requires
        start + 4 <= bytes@.len(),
    ensures
        v == le_signed(bytes@.subrange(start as int, start + 4)),
{
    proof {
        lemma_pow256_widths();
    }
    let raw = u32_from_le(bytes, start);
    if raw < 0x8000_0000 {
        raw as i32
    } else {
        ((raw - 0x8000_0000) as i32) + i32::MIN
    }
}

/// The signed 64-bit number in the eight bytes at `start`.
pub fn i64_from_le(bytes: &Vec<u8>, start: usize) -> (v: i64)
    requires
        start + 8 <= bytes@.len(),
    ensures
        v == le_signed(bytes@.subrange(start as int, start + 8)),
{
    proof {
        lemma_pow256_widths();
    }
    let raw = u64_from_le(bytes, start);
    if raw < 0x8000_0000_0000_0000 {
        raw as i64
    } else {
        ((raw - 0x8000_0000_0000_0000) as i64) + i64::MIN
    }
}

/// The signed 128-bit number in the sixteen bytes at `start`.
pub fn i128_from_le(bytes: &Vec<u8>, start: usize) -> (v: i128)
    requires
        start + 16 <= bytes@.len(),
    ensures
        v == le_signed(bytes@.subrange(start as int, start + 16)),
{
    proof {
        lemma_pow256_widths();
    }
    let raw = u128_from_le(bytes, start);
    if raw < 0x8000_0000_0000_0000_0000_0000_0000_0000 {
        raw as i128
    } else {
        ((raw - 0x8000_0000_0000_0000_0000_0000_0000_0000) as i128) + i128::MIN
    }
}

/// The bytes of element `i` where each element takes `width` bytes.
pub open spec fn element(bytes: Seq<u8>, width: int, i: int) -> Seq<u8> {
    bytes.subrange(i * width, i * width + width)
}

/// The 8-bit numbers that `bytes` hold one after the other.
pub fn u8_array_from_le(bytes: &Vec<u8>) -> (v: Vec<u8>)
    requires
        bytes@.len() % 1 == 0,
    ensures
        v@.len() * 1 == bytes@.len(),
        forall|i: int| 0 <= i < v@.len() ==> (#[trigger] v@[i]) == le_value(element(bytes@, 1, i)),
{
    let count: usize = bytes.len() / 1;
    let mut v: Vec<u8> = Vec::new();
    let mut i: usize = 0;
    while i < count
        invariant
            i <= count,
            count * 1 == bytes@.len() <= usize::MAX,
            v@.len() == i,
            forall|j: int| 0 <= j < i ==> (#[trigger] v@[j]) == le_value(element(bytes@, 1, j)),
        decreases count - i,
    {
        v.push(u8_from_le(bytes, i * 1));
        i += 1;
    }
    v
}

/// The 16-bit numbers that `bytes` hold one after the other.
pub fn u16_array_from_le(bytes: &Vec<u8>) -> (v: Vec<u16>)
    requires
        bytes@.len() % 2 == 0,
    ensures
        v@.len() * 2 == bytes@.len(),
        forall|i: int| 0 <= i < v@.len() ==> (#[trigger] v@[i]) == le_value(element(bytes@, 2, i)),
{
    let count: usize = bytes.len() / 2;
    let mut v: Vec<u16> = Vec::new();
    let mut i: usize = 0;
    while i < count
        invariant
            i <= count,
            count * 2 == bytes@.len() <= usize::MAX,
            v@.len() == i,
            forall|j: int| 0 <= j < i ==> (#[trigger] v@[j]) == le_value(element(bytes@, 2, j)),
        decreases count - i,
    {
        v.push(u16_from_le(bytes, i * 2));
        i += 1;
    }
    v
}

/// The 32-bit numbers that `bytes` hold one after the other.
pub fn u32_array_from_le(bytes: &Vec<u8>) -> (v: Vec<u32>)
    requires
        bytes@.len() % 4 == 0,
    ensures
        v@.len() * 4 == bytes@.len(),
        forall|i: int| 0 <= i < v@.len() ==> (#[trigger] v@[i]) == le_value(element(bytes@, 4, i)),
{
    let count: usize = bytes.len() / 4;
    let mut v: Vec<u32> = Vec::new();
    let mut i: usize = 0;
    while i < count
        invariant
            i <= count,
            count * 4 == bytes@.len() <= usize::MAX,
            v@.len() == i,
            forall|j: int| 0 <= j < i ==> (#[trigger] v@[j]) == le_value(element(bytes@, 4, j)),
        decreases count - i,
    {
        v.push(u32_from_le(bytes, i * 4));
        i += 1;
    }
    v
}

/// The 64-bit numbers that `bytes` hold one after the other.
pub fn u64_array_from_le(bytes: &Vec<u8>) -> (v: Vec<u64>)
    requires
        bytes@.len() % 8 == 0,
    ensures
        v@.len() * 8 == bytes@.len(),
        forall|i: int| 0 <= i < v@.len() ==> (#[trigger] v@[i]) == le_value(element(bytes@, 8, i)),
{
    let count: usize = bytes.len() / 8;
    let mut v: Vec<u64> = Vec::new();
    let mut i: usize = 0;
    while i < count
        invariant
            i <= count,
            count * 8 == bytes@.len() <= usize::MAX,
            v@.len() == i,
            forall|j: int| 0 <= j < i ==> (#[trigger] v@[j]) == le_value(element(bytes@, 8, j)),
        decreases count - i,
    {
        v.push(u64_from_le(bytes, i * 8));
        i += 1;
    }
    v
}

/// The 128-bit numbers that `bytes` hold one after the other.
pub fn u128_array_from_le(bytes: &Vec<u8>) -> (v: Vec<u128>)
    requires
        bytes@.len() % 16 == 0,
    ensures
        v@.len() * 16 == bytes@.len(),
        forall|i: int| 0 <= i < v@.len() ==> (#[trigger] v@[i]) == le_value(element(bytes@, 16, i)),
{
    let count: usize = bytes.len() / 16;
    let mut v: Vec<u128> = Vec::new();
    let mut i: usize = 0;
    while i < count
        invariant
            i <= count,
            count * 16 == bytes@.len() <= usize::MAX,
            v@.len() == i,
            forall|j: int| 0 <= j < i ==> (#[trigger] v@[j]) == le_value(element(bytes@, 16, j)),
        decreases count - i,
    {
        v.push(u128_from_le(bytes, i * 16));
        i += 1;
    }
    v
}

/// The signed 8-bit numbers that `bytes` hold one after the other.
pub fn i8_array_from_le(bytes: &Vec<u8>) -> (v: Vec<i8>)
    requires
        bytes@.len() % 1 == 0,
    ensures
        v@.len() * 1 == bytes@.len(),
        forall|i: int| 0 <= i < v@.len() ==> (#[trigger] v@[i]) == le_signed(element(bytes@, 1, i)),
{
    let count: usize = bytes.len() / 1;
    let mut v: Vec<i8> = Vec::new();
    let mut i: usize = 0;
    while i < count
        invariant
            i <= count,
            count * 1 == bytes@.len() <= usize::MAX,
            v@.len() == i,
            forall|j: int| 0 <= j < i ==> (#[trigger] v@[j]) == le_signed(element(bytes@, 1, j)),
        decreases count - i,
    {
        v.push(i8_from_le(bytes, i * 1));
        i += 1;
    }
    v
}

/// The signed 16-bit numbers that `bytes` hold one after the other.
pub fn i16_array_from_le(bytes: &Vec<u8>) -> (v: Vec<i16>)
    requires
        bytes@.len() % 2 == 0,
    ensures
        v@.len() * 2 == bytes@.len(),
        forall|i: int| 0 <= i < v@.len() ==> (#[trigger] v@[i]) == le_signed(element(bytes@, 2, i)),
{
    let count: usize = bytes.len() / 2;
    let mut v: Vec<i16> = Vec::new();
    let mut i: usize = 0;
    while i < count
        invariant
            i <= count,
            count * 2 == bytes@.len() <= usize::MAX,
            v@.len() == i,
            forall|j: int| 0 <= j < i ==> (#[trigger] v@[j]) == le_signed(element(bytes@, 2, j)),
        decreases count - i,
    {
        v.push(i16_from_le(bytes, i * 2));
        i += 1;
    }
    v
}

/// The signed 32-bit numbers that `bytes` hold one after the other.
pub fn i32_array_from_le(bytes: &Vec<u8>) -> (v: Vec<i32>)
    requires
        bytes@.len() % 4 == 0,
    ensures
        v@.len() * 4 == bytes@.len(),
        forall|i: int| 0 <= i < v@.len() ==> (#[trigger] v@[i]) == le_signed(element(bytes@, 4, i)),
{
    let count: usize = bytes.len() / 4;
    let mut v: Vec<i32> = Vec::new();
    let mut i: usize = 0;
    while i < count
        invariant
            i <= count,
            count * 4 == bytes@.len() <= usize::MAX,
            v@.len() == i,
            forall|j: int| 0 <= j < i ==> (#[trigger] v@[j]) == le_signed(element(bytes@, 4, j)),
        decreases count - i,
    {
        v.push(i32_from_le(bytes, i * 4));
        i += 1;
    }
    v
}

/// The signed 64-bit numbers that `bytes` hold one after the other.
pub fn i64_array_from_le(bytes: &Vec<u8>) -> (v: Vec<i64>)
    requires
        bytes@.len() % 8 == 0,
    ensures
        v@.len() * 8 == bytes@.len(),
        forall|i: int| 0 <= i < v@.len() ==> (#[trigger] v@[i]) == le_signed(element(bytes@, 8, i)),
{
    let count: usize = bytes.len() / 8;
    let mut v: Vec<i64> = Vec::new();
    let mut i: usize = 0;
    while i < count
        invariant
            i <= count,
            count * 8 == bytes@.len() <= usize::MAX,
            v@.len() == i,
            forall|j: int| 0 <= j < i ==> (#[trigger] v@[j]) == le_signed(element(bytes@, 8, j)),
        decreases count - i,
    {
        v.push(i64_from_le(bytes, i * 8));
        i += 1;
    }
    v
}

/// The signed 128-bit numbers that `bytes` hold one after the other.
pub fn i128_array_from_le(bytes: &Vec<u8>) -> (v: Vec<i128>)
    requires
        bytes@.len() % 16 == 0,
    ensures
        v@.len() * 16 == bytes@.len(),
        forall|i: int| 0 <= i < v@.len() ==> (#[trigger] v@[i]) == le_signed(element(bytes@, 16, i)),
{
    let count: usize = bytes.len() / 16;
    let mut v: Vec<i128> = Vec::new();
    let mut i: usize = 0;
    while i < count
        invariant
            i <= count,
            count * 16 == bytes@.len() <= usize::MAX,
            v@.len() == i,
            forall|j: int| 0 <= j < i ==> (#[trigger] v@[j]) == le_signed(element(bytes@, 16, j)),
        decreases count - i,
    {
        v.push(i128_from_le(bytes, i * 16));
        i += 1;
    }
    v
}

/// The `width` bytes that hold `value`, least significant byte first.
pub open spec fn le_bytes(value: nat, width: nat) -> Seq<u8>
    decreases width,
{
    if width == 0 {
        Seq::empty()
    } else {
        seq![(value % 256) as u8] + le_bytes(value / 256, (width - 1) as nat)
    }
}

/// Can `width` bytes hold `value`, as an unsigned number or in two's
/// complement?
pub open spec fn representable(value: int, width: nat, signed: bool) -> bool {
    if signed {
        -pow256(width) <= 2 * value < pow256(width)
    } else {
        0 <= value < pow256(width)
    }
}

/// The `width` bytes that hold `value`, little-endian, unsigned or in two's
/// complement.
pub open spec fn number_bytes(value: int, width: nat, signed: bool) -> Seq<u8> {
    if signed && value < 0 {
        le_bytes((value + pow256(width)) as nat, width)
    } else {
        le_bytes(value as nat, width)
    }
}

/// The bytes of numbers written one after the other.
pub open spec fn array_bytes(items: Seq<int>, width: nat, signed: bool) -> Seq<u8>
    decreases items.len(),
{
    if items.len() == 0 {
        Seq::empty()
    } else {
        array_bytes(items.drop_last(), width, signed) + number_bytes(items.last(), width, signed)
    }
}

/// Writing a number as bytes and reading the bytes gives the number back.
pub proof fn lemma_le_bytes_round_trip(value: nat, width: nat)
    requires
        value < pow256(width),
    ensures
        le_bytes(value, width).len() == width,
        le_value(le_bytes(value, width)) == value,
    decreases width,
{
    if width > 0 {
        lemma_le_bytes_round_trip(value / 256, (width - 1) as nat);
        let s = le_bytes(value, width);
        assert(s.drop_first() == le_bytes(value / 256, (width - 1) as nat));
    }
}

/// Writing a number of either kind as bytes and reading the bytes in the same
/// kind gives the number back.
pub proof fn lemma_number_round_trip(value: int, width: nat, signed: bool)
    requires
        representable(value, width, signed),
    ensures
        number_bytes(value, width, signed).len() == width,
        signed ==> le_signed(number_bytes(value, width, signed)) == value,
        !signed ==> le_value(number_bytes(value, width, signed)) == value,
{
    if signed && value < 0 {
        lemma_le_bytes_round_trip((value + pow256(width)) as nat, width);
    } else {
        lemma_le_bytes_round_trip(value as nat, width);
    }
}

/// In the bytes of an array, element `i` holds item `i`.
pub proof fn lemma_array_bytes_elements(items: Seq<int>, width: nat, signed: bool)
    requires
        forall|i: int| 0 <= i < items.len() ==> representable(#[trigger] items[i], width, signed),
    ensures
        array_bytes(items, width, signed).len() == items.len() * width,
        forall|i: int|
            0 <= i < items.len() ==> #[trigger] element(
                array_bytes(items, width, signed),
                width as int,
                i,
            ) == number_bytes(items[i], width, signed),
    decreases items.len(),
{
    if items.len() > 0 {
        let before = items.drop_last();
        let n = before.len() as int;
        let w = width as int;
        lemma_array_bytes_elements(before, width, signed);
        lemma_number_round_trip(items.last(), width, signed);
        let left = array_bytes(before, width, signed);
        let whole = array_bytes(items, width, signed);
        assert((n + 1) * w == n * w + w) by (nonlinear_arith);
        assert forall|i: int| 0 <= i < items.len() implies #[trigger] element(whole, w, i)
            == number_bytes(items[i], width, signed) by {
            if i < n {
                assert(i * w + w <= n * w) by (nonlinear_arith)
                    requires
                        0 <= i < n,
                        0 <= w,
                ;
                assert(0 <= i * w) by (nonlinear_arith)
                    requires
                        0 <= i,
                        0 <= w,
                ;
                assert(element(whole, w, i) == element(left, w, i));
                assert(before[i] == items[i]);
            } else {
                assert(element(whole, w, i) == number_bytes(items.last(), width, signed));
            }
        }
    } else {
        assert(items.len() * width == 0) by (nonlinear_arith)
            requires
                items.len() == 0,
        ;
    }
}

} // verus!
