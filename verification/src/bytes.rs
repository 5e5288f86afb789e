//! The binary form of an identifier: its 128 bits as 16 bytes, most
//! significant byte first.

use vstd::arithmetic::power2::{lemma2_to64, lemma_pow2_adds, lemma_pow2_strictly_increases, pow2};
use vstd::prelude::*;

verus! {

/// Number of bytes of an identifier's binary form.
pub const BYTES_LEN: usize = 16;

/// The number that `bytes` write in base 256, most significant byte first.
pub open spec fn bytes_value(bytes: Seq<u8>) -> int
    decreases bytes.len(),
{
    if bytes.len() == 0 {
        0
    } else {
        bytes_value(bytes.drop_last()) * 256 + bytes.last() as int
    }
}

/// `n` bytes write a number below `2^(8 n)`.
pub proof fn lemma_bytes_value_bound(bytes: Seq<u8>)
    ensures
        0 <= bytes_value(bytes) < pow2(8 * bytes.len()),
    decreases bytes.len(),
{
    lemma2_to64();
    if bytes.len() > 0 {
        lemma_bytes_value_bound(bytes.drop_last());
        lemma_pow2_adds((8 * (bytes.len() - 1)) as nat, 8);
    }
}

/// Sixteen bytes write a number that fits in 128 bits, and fewer bytes one
/// that leaves room for the bytes still missing.
pub proof fn lemma_bytes_value_fits(bytes: Seq<u8>)
    requires
        bytes.len() <= 16,
    ensures
        0 <= bytes_value(bytes) <= u128::MAX,
        bytes.len() < 16 ==> bytes_value(bytes) * 256 + 255 <= u128::MAX,
{
    lemma2_to64();
    lemma_pow2_adds(64, 64);
    lemma_pow2_adds(120, 8);
    lemma_bytes_value_bound(bytes);
    if bytes.len() < 15 {
        lemma_pow2_strictly_increases(8 * bytes.len(), 120);
    }
}

/// Byte strings of one length that write the same number are the same: a
/// number has one binary form.
pub proof fn lemma_bytes_value_injective(a: Seq<u8>, b: Seq<u8>)
    requires
        a.len() == b.len(),
        bytes_value(a) == bytes_value(b),
    ensures
        a == b,
    decreases a.len(),
{
    if a.len() > 0 {
        lemma_bytes_value_injective(a.drop_last(), b.drop_last());
        assert(a =~= a.drop_last().push(a.last()));
        assert(b =~= b.drop_last().push(b.last()));
    }
    assert(a =~= b);
}

/// The binary form of `value`: the 16 bytes that write it in base 256, most
/// significant byte first.
pub fn to_bytes(value: u128) -> (bytes: [u8; 16])
    ensures
        bytes_value(bytes@) == value,
{
    let mut bytes: [u8; 16] = [0u8; 16];
    let mut i: usize = 0;
    while i < 16
        invariant
            i <= 16,
            bytes@.len() == 16,
            i == 0 ==> bytes_value(bytes@.take(i as int)) == 0,
            i > 0 ==> bytes_value(bytes@.take(i as int)) == value >> ((128 - 8 * i) as u128),
        decreases 16 - i,
    {
        let shift: u32 = 120 - 8 * (i as u32);
        let byte: u8 = ((value >> shift) & 0xff) as u8;
        let ghost before = bytes@;
        bytes[i] = byte;
        proof {
            let wide = shift as u128;
            assert(bytes@.take(i + 1).drop_last() =~= before.take(i as int));
            assert(bytes@.take(i + 1).last() == byte);
            assert((value >> wide) & 0xff < 256) by (bit_vector);
            if i == 0 {
                assert((value >> 120u128) & 0xff == value >> 120u128) by (bit_vector);
            } else {
                assert((value >> ((wide + 8) as u128)) * 256 + ((value >> wide) & 0xff) == value
                    >> wide) by (bit_vector)
                    requires
                        wide <= 112,
                ;
            }
        }
        i += 1;
    }
    proof {
        assert(bytes@.take(16) =~= bytes@);
        assert(value >> 0u128 == value) by (bit_vector);
    }
    bytes
}

/// The value whose binary form is `bytes`.
pub fn from_bytes(bytes: [u8; 16]) -> (value: u128)
    ensures
        value == bytes_value(bytes@),
{
    let mut value: u128 = 0;
    let mut i: usize = 0;
    while i < 16
        invariant
            i <= 16,
            bytes@.len() == 16,
            value == bytes_value(bytes@.take(i as int)),
        decreases 16 - i,
    {
        proof {
            lemma_bytes_value_fits(bytes@.take(i as int));
            assert(bytes@.take(i + 1).drop_last() =~= bytes@.take(i as int));
        }
        value = value * 256 + bytes[i] as u128;
        i += 1;
    }
    proof {
        assert(bytes@.take(16) =~= bytes@);
    }
    value
}

} // verus!
