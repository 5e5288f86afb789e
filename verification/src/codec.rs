//! Conversions between an identifier's three forms: the 128-bit value, its
//! two fields, and its 26-character text.

use crate::alphabet::{ascii_lower, ascii_upper, digit_of, digit_value, symbol, symbol_of};
use crate::digits::{
    lemma_fits_iff_first_digit, lemma_place, lemma_text_ignores_case, lemma_text_of_value,
    lemma_text_value_bound, lemma_text_value_prefix,
};
use crate::error::UlidError;
use vstd::arithmetic::div_mod::lemma_div_nonincreasing;
use vstd::arithmetic::power2::pow2;
use vstd::bits::lemma_u128_shr_is_div;
use vstd::string::StrSliceExecFns;
use vstd::prelude::*;

verus! {

/// Width of the timestamp field, in bits.
pub const TIMESTAMP_BITS: u32 = 48;

/// Width of the random field, in bits.
pub const RANDOM_BITS: u32 = 80;

/// Largest timestamp that fits in the timestamp field: `2^48 - 1`.
pub const MAX_TIMESTAMP: u64 = 0xFFFF_FFFF_FFFF;

/// Largest payload that fits in the random field: `2^80 - 1`.
pub const MAX_RANDOM: u128 = 0xFFFF_FFFF_FFFF_FFFF_FFFF;

/// Number of characters of an identifier's text.
pub const TEXT_LEN: usize = 26;

/// Number of values of the random field: `2^80`.
pub open spec fn random_span() -> int {
    0x1_0000_0000_0000_0000_0000
}

/// The value whose timestamp field is `timestamp` and whose random field is
/// `random`.
pub open spec fn compose(timestamp: int, random: int) -> int {
    timestamp * random_span() + random
}

/// The timestamp field of `value`: its upper 48 bits.
pub open spec fn timestamp_of(value: u128) -> u64 {
    (value as int / random_span()) as u64
}

/// The random field of `value`: its lower 80 bits.
pub open spec fn random_of(value: u128) -> u128 {
    (value as int % random_span()) as u128
}

/// What `join` returns.
pub open spec fn join_spec(timestamp: u64, random: u128) -> Result<u128, UlidError> {
    if timestamp > MAX_TIMESTAMP {
        Err(UlidError::TimestampOverflow)
    } else {
        Ok(compose(timestamp as int, random as int % random_span()) as u128)
    }
}

/// Splits a value into its timestamp and its random payload.
pub fn split(value: u128) -> (fields: (u64, u128))
    ensures
        fields.0 == timestamp_of(value),
        fields.1 == random_of(value),
        fields.0 <= MAX_TIMESTAMP,
        fields.1 <= MAX_RANDOM,
{
    assert(value >> 80 == value / 0x1_0000_0000_0000_0000_0000u128) by (bit_vector);
    assert(value & 0xFFFF_FFFF_FFFF_FFFF_FFFFu128 == value % 0x1_0000_0000_0000_0000_0000u128)
        by (bit_vector);
    ((value >> RANDOM_BITS) as u64, value & MAX_RANDOM)
}

/// Joins a timestamp and a random payload into a value. A timestamp wider
/// than 48 bits is refused; of `random` the low 80 bits are taken.
pub fn join(timestamp: u64, random: u128) -> (r: Result<u128, UlidError>)
    ensures
        r == join_spec(timestamp, random),
        timestamp <= MAX_TIMESTAMP && random <= MAX_RANDOM ==> r == Ok::<u128, UlidError>(
            compose(timestamp as int, random as int) as u128,
        ),
{
    if timestamp > MAX_TIMESTAMP {
        return Err(UlidError::TimestampOverflow);
    }
    let high: u128 = timestamp as u128;
    assert((high << 80) | (random & 0xFFFF_FFFF_FFFF_FFFF_FFFFu128) == high
        * 0x1_0000_0000_0000_0000_0000u128 + random % 0x1_0000_0000_0000_0000_0000u128)
        by (bit_vector)
        requires
            high <= 0xFFFF_FFFF_FFFFu128,
    ;
    Ok((high << RANDOM_BITS) | (random & MAX_RANDOM))
}

/// Weight of the digit that stands `k` places from the right end of a text:
/// `32^k`.
pub open spec fn place(k: int) -> int {
    pow2((5 * k) as nat) as int
}

/// Digit `i` of `value`, counted from the left end of its 26-digit text: the
/// five bits of `value` that start at bit `5 * (25 - i)`.
pub open spec fn digit_at(value: u128, i: int) -> int {
    (value as int / place(25 - i)) % 32
}

/// The canonical text of `value`: 26 upper-case symbols, most significant
/// digit first.
pub open spec fn encode_spec(value: u128) -> Seq<char> {
    Seq::new(26, |i: int| symbol(digit_at(value, i)))
}

/// `s` with every ASCII upper-case letter replaced by its lower-case form.
pub open spec fn lower_text(s: Seq<char>) -> Seq<char> {
    Seq::new(s.len(), |i: int| ascii_lower(s[i]))
}

/// `s` with every ASCII lower-case letter replaced by its upper-case form.
pub open spec fn upper_text(s: Seq<char>) -> Seq<char> {
    Seq::new(s.len(), |i: int| ascii_upper(s[i]))
}

/// The text of `value` in the requested case.
pub open spec fn render_spec(value: u128, lowercase: bool) -> Seq<char> {
    if lowercase {
        lower_text(encode_spec(value))
    } else {
        encode_spec(value)
    }
}

/// Whether `s` and `t` agree before position `k` and `s` has the smaller
/// character there.
pub open spec fn precedes_at(s: Seq<char>, t: Seq<char>, k: int) -> bool {
    &&& 0 <= k < s.len()
    &&& k < t.len()
    &&& forall|i: int| 0 <= i < k ==> s[i] == t[i]
    &&& s[k] < t[k]
}

/// Whether `s` comes before `t` in lexicographic order because of a
/// character in which they differ. For two texts of one length this is the
/// order in which strings sort.
pub open spec fn text_precedes(s: Seq<char>, t: Seq<char>) -> bool {
    exists|k: int| precedes_at(s, t, k)
}

/// The digit of `c`, or zero when `c` is not a symbol.
pub open spec fn digit_or_zero(c: char) -> int {
    match digit_value(c) {
        Some(d) => d,
        None => 0,
    }
}

/// Whether every character of `s` is a symbol of the alphabet, in either
/// case.
pub open spec fn all_symbols(s: Seq<char>) -> bool {
    forall|i: int| 0 <= i < s.len() ==> (#[trigger] digit_value(s[i])) is Some
}

/// The number that `s` writes in base 32, most significant digit first.
pub open spec fn text_value(s: Seq<char>) -> int
    decreases s.len(),
{
    if s.len() == 0 {
        0
    } else {
        text_value(s.drop_last()) * 32 + digit_or_zero(s.last())
    }
}

/// What `decode` returns: the length is judged first, then the characters,
/// then the size of the number they write.
pub open spec fn decode_spec(s: Seq<char>) -> Result<u128, UlidError> {
    if s.len() != 26 {
        Err(UlidError::InvalidLength)
    } else if !all_symbols(s) {
        Err(UlidError::InvalidCharacter)
    } else if text_value(s) > u128::MAX {
        Err(UlidError::Overflow)
    } else {
        Ok(text_value(s) as u128)
    }
}

/// Writes `value` as 26 symbols, most significant digit first, in upper case
/// or, when `lowercase` is set, in lower case. Decoding the text gives
/// `value` back.
pub fn render(value: u128, lowercase: bool) -> (text: String)
    ensures
        text@ == render_spec(value, lowercase),
        decode_spec(text@) == Ok::<u128, UlidError>(value),
{
    let mut text = String::new();
    let mut i: u32 = 0;
    while i < 26
        invariant
            i <= 26,
            text@.len() == i,
            forall|k: int| 0 <= k < i ==> text@[k] == render_spec(value, lowercase)[k],
        decreases 26 - i,
    {
        let shift: u32 = 125 - 5 * i;
        let group: u128 = value >> shift;
        let d: u8 = (group & 31) as u8;
        proof {
            lemma_u128_shr_is_div(value, shift as u128);
            assert(group & 31 == group % 32) by (bit_vector);
            assert(d == digit_at(value, i as int));
        }
        text.push(symbol_of(d, lowercase));
        i += 1;
    }
    proof {
        assert(text@ =~= render_spec(value, lowercase));
        lemma_text_of_value(value);
        lemma_text_ignores_case(encode_spec(value));
    }
    text
}

/// Writes `value` in its canonical form: 26 upper-case symbols.
pub fn encode(value: u128) -> (text: String)
    ensures
        text@ == encode_spec(value),
        decode_spec(text@) == Ok::<u128, UlidError>(value),
{
    render(value, false)
}

/// Reads a value from its text, in either case. Fails with `InvalidLength`
/// unless the text has 26 characters, else with `InvalidCharacter` if one of
/// them is not a symbol, else with `Overflow` if the first digit is above 7,
/// so that the number does not fit in 128 bits.
pub fn decode(text: &str) -> (r: Result<u128, UlidError>)
    ensures
        r == decode_spec(text@),
{
    if text.unicode_len() != TEXT_LEN {
        return Err(UlidError::InvalidLength);
    }
    let mut value: u128 = 0;
    let mut too_large = false;
    let mut i: usize = 0;
    proof {
        lemma_fits_iff_first_digit(text@);
    }
    while i < TEXT_LEN
        invariant
            text@.len() == 26,
            i <= 26,
            forall|k: int| 0 <= k < i ==> (#[trigger] digit_value(text@[k])) is Some,
            too_large <==> i > 0 && digit_or_zero(text@[0]) >= 8,
            !too_large ==> value == text_value(text@.take(i as int)),
            text_value(text@) <= u128::MAX <==> digit_or_zero(text@[0]) < 8,
        decreases 26 - i,
    {
        let c = text.get_char(i);
        match digit_of(c) {
            None => {
                return Err(UlidError::InvalidCharacter);
            },
            Some(d) => {
                if i == 0 && d >= 8 {
                    too_large = true;
                } else if !too_large {
                    proof {
                        let longer = text@.take(i + 1);
                        assert(longer.drop_last() =~= text@.take(i as int));
                        assert(longer.last() == c);
                        lemma_text_value_bound(text@);
                        lemma_text_value_prefix(text@, i + 1);
                        lemma_place(25 - i);
                        lemma_div_nonincreasing(text_value(text@), place(25 - i));
                    }
                    value = value * 32 + d as u128;
                }
            },
        }
        i += 1;
    }
    proof {
        assert(text@.take(26) =~= text@);
    }
    if too_large {
        Err(UlidError::Overflow)
    } else {
        Ok(value)
    }
}

} // verus!
