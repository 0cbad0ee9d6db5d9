//! ULEB128: unsigned numbers of variable length, seven bits a byte.

use vstd::prelude::*;

verus! {

/// Does a byte of a ULEB128 number announce a further byte? Its top bit
/// says so.
pub open spec fn continues(b: u8) -> bool {
    b >= 0x80
}

/// The number that the ULEB128 bytes hold: seven bits a byte, the least
/// significant group first.
pub open spec fn uleb128_value(bytes: Seq<u8>) -> nat
    decreases bytes.len(),
{
    if bytes.len() == 0 {
        0
    } else {
        (bytes[0] % 0x80) as nat + 0x80 * uleb128_value(bytes.drop_first())
    }
}

/// The longest ULEB128 number that is decoded: ten bytes hold seventy bits,
/// which cover a 64-bit value.
pub const ULEB128_MAX_BYTES: usize = 10;

/// Is `bytes` one whole ULEB128 number: every byte but the last announces a
/// further one, and the last does not?
pub open spec fn is_uleb128(bytes: Seq<u8>) -> bool {
    &&& bytes.len() >= 1
    &&& !continues(bytes.last())
    &&& forall|i: int| 0 <= i < bytes.len() - 1 ==> continues(#[trigger] bytes[i])
}

/// 128 to the power `n`.
pub open spec fn pow128(n: nat) -> nat
    decreases n,
{
    if n == 0 {
        1
    } else {
        0x80 * pow128((n - 1) as nat)
    }
}

/// A power of 128 does not shrink as the exponent grows.
proof fn lemma_pow128_grows(a: nat, b: nat)
    requires
        a <= b,
    ensures
        1 <= pow128(a) <= pow128(b),
    decreases b,
{
    if a < b {
        lemma_pow128_grows(a, (b - 1) as nat);
    } else if a > 0 {
        lemma_pow128_grows((a - 1) as nat, (a - 1) as nat);
    }
}

/// The value of up to ten ULEB128 bytes, cut to its low 64 bits.
pub fn uleb128_from(bytes: &Vec<u8>) -> (v: u64)
    requires
        bytes@.len() <= ULEB128_MAX_BYTES,
    ensures
        v == uleb128_value(bytes@) % 0x1_0000_0000_0000_0000,
{
    let mut acc: u128 = 0;
    let mut k: usize = bytes.len();
    while k > 0
        invariant
            k <= bytes@.len() <= 10,
            acc == uleb128_value(bytes@.skip(k as int)),
            acc < pow128((bytes@.len() - k) as nat),
        decreases k,
    {
        k -= 1;
        proof {
            let s = bytes@.skip(k as int);
            assert(s.drop_first() == bytes@.skip(k + 1));
            assert(s[0] == bytes@[k as int]);
            lemma_pow128_grows((bytes@.len() - k) as nat, 10);
            assert(pow128(10) == 0x40_0000_0000_0000_0000) by {
                reveal_with_fuel(pow128, 11);
            }
        }
        acc = acc * 0x80 + (bytes[k] % 0x80) as u128;
    }
    proof {
        assert(bytes@.skip(0) == bytes@);
    }
    (acc % 0x1_0000_0000_0000_0000) as u64
}

} // verus!
