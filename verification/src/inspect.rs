//! Taking an identifier apart for display: its canonical text, the instant
//! of its timestamp, and its random payload in hexadecimal.

use crate::codec::{decode, decode_spec, encode, encode_spec, random_of, split, timestamp_of};
use crate::error::UlidError;
use crate::trusted::{format_rfc3339, rfc3339_text};
use vstd::arithmetic::power2::pow2;
use vstd::bits::lemma_u128_shr_is_div;
use vstd::prelude::*;

verus! {

/// Number of hexadecimal digits of an 80-bit payload.
pub const HEX_LEN: usize = 20;

/// The lower-case hexadecimal digit that stands for `d`, for `0 <= d < 16`.
pub open spec fn hex_symbol(d: int) -> char {
    "0123456789abcdef"@[d]
}

/// Hexadecimal digit `i` of the low 80 bits of `random`, counted from the
/// left end of their 20 digits.
pub open spec fn nibble_at(random: u128, i: int) -> int {
    (random as int / pow2((4 * (19 - i)) as nat) as int) % 16
}

/// The low 80 bits of `random` as 20 lower-case hexadecimal digits, most
/// significant first, with leading zeros.
pub open spec fn hex_spec(random: u128) -> Seq<char> {
    Seq::new(20, |i: int| hex_symbol(nibble_at(random, i)))
}

/// What is shown of an identifier.
#[derive(Debug, PartialEq, Eq)]
pub struct Inspection {
    /// The identifier.
    pub value: u128,
    /// Its canonical text: 26 upper-case symbols.
    pub canonical: String,
    /// The instant of its timestamp as an RFC 3339 date and time in UTC.
    pub datetime: String,
    /// Its timestamp: milliseconds since the epoch.
    pub timestamp_ms: u64,
    /// Its random payload.
    pub random: u128,
    /// Its random payload as 20 hexadecimal digits.
    pub random_hex: String,
}

/// Whether `shown` is what is shown of `value`, given the text of its
/// instant.
pub open spec fn describes(shown: Inspection, value: u128, datetime: Seq<char>) -> bool {
    &&& shown.value == value
    &&& shown.canonical@ == encode_spec(value)
    &&& shown.datetime@ == datetime
    &&& shown.timestamp_ms == timestamp_of(value)
    &&& shown.random == random_of(value)
    &&& shown.random_hex@ == hex_spec(random_of(value))
}

/// The lower-case hexadecimal digit for `d`.
pub fn hex_symbol_of(d: u8) -> (c: char)
    requires
        d < 16,
    ensures
        c == hex_symbol(d as int),
{
    proof {
        reveal_strlit("0123456789abcdef");
        let h = "0123456789abcdef"@;
        assert(h[0] == '0' && h[1] == '1' && h[2] == '2' && h[3] == '3' && h[4] == '4' && h[5]
            == '5' && h[6] == '6' && h[7] == '7');
        assert(h[8] == '8' && h[9] == '9' && h[10] == 'a' && h[11] == 'b' && h[12] == 'c'
            && h[13] == 'd' && h[14] == 'e' && h[15] == 'f');
    }
    let code: u8 = if d < 10 {
        '0' as u8 + d
    } else {
        'a' as u8 + (d - 10)
    };
    code as char
}

/// Writes the low 80 bits of `random` as 20 lower-case hexadecimal digits.
pub fn random_hex(random: u128) -> (text: String)
    ensures
        text@ == hex_spec(random),
{
    let mut text = String::new();
    let mut i: u32 = 0;
    while i < 20
        invariant
            i <= 20,
            text@.len() == i,
            forall|k: int| 0 <= k < i ==> text@[k] == hex_spec(random)[k],
        decreases 20 - i,
    {
        let shift: u32 = 76 - 4 * i;
        let group: u128 = random >> shift;
        let d: u8 = (group & 15) as u8;
        proof {
            lemma_u128_shr_is_div(random, shift as u128);
            assert(group & 15 == group % 16) by (bit_vector);
            assert(d == nibble_at(random, i as int));
        }
        text.push(hex_symbol_of(d));
        i += 1;
    }
    assert(text@ =~= hex_spec(random));
    text
}

/// Puts together what is shown of `value`, given the text of its instant.
pub fn describe(value: u128, datetime: String) -> (shown: Inspection)
    ensures
        describes(shown, value, datetime@),
{
    let (timestamp_ms, random) = split(value);
    Inspection {
        value,
        canonical: encode(value),
        datetime,
        timestamp_ms,
        random,
        random_hex: random_hex(random),
    }
}

/// Reads an identifier from its text and takes it apart. Fails as `decode`
/// does, on the same texts.
pub fn inspect_ulid(input: &str) -> (r: Result<Inspection, UlidError>)
    ensures
        match decode_spec(input@) {
            Ok(value) => r is Ok && describes(
                r->Ok_0,
                value,
                rfc3339_text(timestamp_of(value)),
            ),
            Err(e) => r is Err && r->Err_0 == e,
        },
{
    match decode(input) {
        Ok(value) => {
            let (timestamp_ms, _) = split(value);
            Ok(describe(value, format_rfc3339(timestamp_ms)))
        },
        Err(e) => Err(e),
    }
}

} // verus!
