//! What holds of the codec and of the generator as a whole, beyond what each
//! function promises for itself.

use crate::codec::{
    all_symbols, compose, decode_spec, digit_at, digit_or_zero, encode_spec, join_spec,
    lower_text, place, precedes_at, random_of, render_spec, text_precedes, text_value,
    timestamp_of, upper_text, MAX_RANDOM, MAX_TIMESTAMP,
};
use crate::alphabet::{digit_value, lemma_digit_value, symbol};
use crate::digits::{
    lemma_digits_of_text, lemma_first_difference, lemma_fits_iff_first_digit, lemma_place,
    lemma_place_top, lemma_symbols_increase, lemma_text_ignores_case, lemma_text_of_value,
};
use vstd::arithmetic::div_mod::lemma_basic_div;
use crate::error::UlidError;
use crate::generator::{must_increment, next_state, next_value, outcome_of, state_after};
use vstd::prelude::*;

verus! {

/// Decoding the text of a value, in upper or in lower case, gives the value
/// back.
pub proof fn lemma_decode_of_encode(value: u128, lowercase: bool)
    ensures
        decode_spec(render_spec(value, lowercase)) == Ok::<u128, UlidError>(value),
        decode_spec(encode_spec(value)) == Ok::<u128, UlidError>(value),
{
    lemma_text_of_value(value);
    lemma_text_ignores_case(encode_spec(value));
}

/// Decoding succeeds on exactly the texts of 26 symbols whose first digit is
/// at most 7.
pub proof fn lemma_decode_succeeds_iff(s: Seq<char>)
    ensures
        decode_spec(s) is Ok <==> s.len() == 26 && all_symbols(s) && digit_or_zero(s[0]) < 8,
{
    if s.len() == 26 {
        lemma_fits_iff_first_digit(s);
    }
}

/// Encoding what a text decodes to gives the text back in upper case. This
/// speaks of the texts that decode: 26 symbols that write a number of at most
/// 128 bits.
pub proof fn lemma_encode_of_decode(s: Seq<char>)
    requires
        s.len() == 26,
        all_symbols(s),
        text_value(s) <= u128::MAX,
    ensures
        decode_spec(s) is Ok,
        encode_spec(decode_spec(s)->Ok_0) == upper_text(s),
{
    let value = text_value(s) as u128;
    assert forall|i: int| 0 <= i < 26 implies symbol(digit_at(value, i)) == upper_text(s)[i] by {
        lemma_digits_of_text(s, i);
        lemma_digit_value(s[i]);
        assert(digit_value(s[i]) is Some);
    }
    assert(encode_spec(value) =~= upper_text(s));
}

/// Decoding does not look at the case of the letters.
pub proof fn lemma_decode_ignores_case(s: Seq<char>)
    ensures
        decode_spec(upper_text(s)) == decode_spec(s),
        decode_spec(lower_text(s)) == decode_spec(s),
{
    lemma_text_ignores_case(s);
}

/// The texts of two values, written in one case, sort as the values do: the
/// smaller value has the text that comes first.
pub proof fn lemma_text_order(a: u128, b: u128, lowercase: bool)
    ensures
        a < b <==> text_precedes(render_spec(a, lowercase), render_spec(b, lowercase)),
{
    let s = render_spec(a, lowercase);
    let t = render_spec(b, lowercase);
    if a < b {
        lemma_smaller_value_comes_first(a, b, lowercase);
    } else if b < a {
        lemma_smaller_value_comes_first(b, a, lowercase);
        let k = choose|k: int| precedes_at(t, s, k);
        assert forall|j: int| !precedes_at(s, t, j) by {
            if precedes_at(s, t, j) {
                if j < k {
                    assert(t[j] == s[j]);
                } else if k < j {
                    assert(s[k] == t[k]);
                }
            }
        }
    } else {
        assert forall|j: int| !precedes_at(s, t, j) by {}
    }
}

/// The text of the smaller of two values comes first.
pub proof fn lemma_smaller_value_comes_first(a: u128, b: u128, lowercase: bool)
    requires
        a < b,
    ensures
        text_precedes(render_spec(a, lowercase), render_spec(b, lowercase)),
{
    let s = render_spec(a, lowercase);
    let t = render_spec(b, lowercase);
    lemma_place_top();
    lemma_basic_div(a as int, place(26));
    lemma_basic_div(b as int, place(26));
    let k = lemma_first_difference(a, b, 0);
    lemma_place(25 - k);
    lemma_symbols_increase(digit_at(a, k), digit_at(b, k));
    assert(precedes_at(s, t, k));
}

/// Values are ordered by their timestamps first: of two values with
/// different timestamps the one with the earlier timestamp is the smaller,
/// whatever the payloads.
pub proof fn lemma_join_orders_by_timestamp(t1: u64, r1: u128, t2: u64, r2: u128)
    requires
        t1 < t2 <= MAX_TIMESTAMP,
    ensures
        join_spec(t1, r1) is Ok,
        join_spec(t2, r2) is Ok,
        join_spec(t1, r1)->Ok_0 < join_spec(t2, r2)->Ok_0,
{
}

/// A value is made of its two fields, each within its width: joining what
/// was split gives the value back.
pub proof fn lemma_join_of_split(value: u128)
    ensures
        timestamp_of(value) <= MAX_TIMESTAMP,
        random_of(value) <= MAX_RANDOM,
        compose(timestamp_of(value) as int, random_of(value) as int) == value,
        join_spec(timestamp_of(value), random_of(value)) == Ok::<u128, UlidError>(value),
{
}

/// Splitting what was joined gives the timestamp back, and the payload too
/// when it fits in 80 bits.
pub proof fn lemma_split_of_join(timestamp: u64, random: u128)
    requires
        timestamp <= MAX_TIMESTAMP,
    ensures
        join_spec(timestamp, random) is Ok,
        timestamp_of(join_spec(timestamp, random)->Ok_0) == timestamp,
        random_of(join_spec(timestamp, random)->Ok_0) == random % (MAX_RANDOM + 1) as u128,
        random <= MAX_RANDOM ==> random_of(join_spec(timestamp, random)->Ok_0) == random,
        random <= MAX_RANDOM ==> join_spec(timestamp, random)->Ok_0 == compose(
            timestamp as int,
            random as int,
        ),
{
}

/// The fields in terms of bits: the timestamp is the value shifted right by
/// 80 bits, the payload is the value under a mask of 80 ones, and the value
/// is the timestamp shifted left by 80 bits with the payload in the bits
/// that this leaves empty.
pub proof fn lemma_fields_as_bits(value: u128)
    ensures
        timestamp_of(value) == value >> 80,
        random_of(value) == value & MAX_RANDOM,
        value == ((timestamp_of(value) as u128) << 80) | random_of(value),
{
    assert(value >> 80 == value / 0x1_0000_0000_0000_0000_0000u128) by (bit_vector);
    assert(value & 0xFFFF_FFFF_FFFF_FFFF_FFFFu128 == value % 0x1_0000_0000_0000_0000_0000u128)
        by (bit_vector);
    assert(value == ((value >> 80) << 80) | (value & 0xFFFF_FFFF_FFFF_FFFF_FFFFu128))
        by (bit_vector);
}

/// An answer carries the later of the two timestamps: the one asked for, or
/// the previous one when that is not earlier. So a run of requests whose
/// timestamps never decrease is answered with exactly those timestamps.
pub proof fn lemma_answer_timestamp(previous: Option<u128>, timestamp: u64, entropy: u128)
    ensures
        next_value(previous, timestamp, entropy) matches Ok(value) ==> timestamp_of(value) == if must_increment(
            previous,
            timestamp,
        ) {
            timestamp_of(previous->0)
        } else {
            timestamp
        },
{
}

/// An answer is greater than the value before it.
pub proof fn lemma_answer_exceeds_previous(previous: u128, timestamp: u64, entropy: u128)
    ensures
        next_value(Some(previous), timestamp, entropy) matches Ok(value) ==> previous < value,
{
}

/// Once a request of a run has been answered with a value, the generator
/// remembers that value or a greater one.
pub proof fn lemma_state_keeps_up(
    start: Option<u128>,
    timestamps: Seq<u64>,
    entropies: Seq<u128>,
    i: int,
    n: int,
)
    requires
        0 <= i < n,
        outcome_of(start, timestamps, entropies, i) is Ok,
    ensures
        state_after(start, timestamps, entropies, n) is Some,
        outcome_of(start, timestamps, entropies, i)->Ok_0 <= state_after(
            start,
            timestamps,
            entropies,
            n,
        )->0,
    decreases n,
{
    if n > i + 1 {
        lemma_state_keeps_up(start, timestamps, entropies, i, n - 1);
        let before = state_after(start, timestamps, entropies, n - 1);
        lemma_answer_exceeds_previous(before->0, timestamps[n - 1], entropies[n - 1]);
    }
}

/// The values that one generator hands out form a strictly increasing
/// sequence, whatever timestamps are asked for and whatever entropy is
/// drawn: of two requests of a run that were both answered with a value, the
/// later one got the greater value. Every such value is also greater than
/// the value from which the run started.
pub proof fn lemma_generated_values_increase(
    start: Option<u128>,
    timestamps: Seq<u64>,
    entropies: Seq<u128>,
    i: int,
    j: int,
)
    requires
        0 <= i < j,
    ensures
        outcome_of(start, timestamps, entropies, i) is Ok && outcome_of(
            start,
            timestamps,
            entropies,
            j,
        ) is Ok ==> outcome_of(start, timestamps, entropies, i)->Ok_0 < outcome_of(
            start,
            timestamps,
            entropies,
            j,
        )->Ok_0,
        start is Some && outcome_of(start, timestamps, entropies, i) is Ok ==> start->0
            < outcome_of(start, timestamps, entropies, i)->Ok_0,
{
    if outcome_of(start, timestamps, entropies, i) is Ok {
        lemma_state_keeps_up(start, timestamps, entropies, i, j);
        let before = state_after(start, timestamps, entropies, j);
        lemma_answer_exceeds_previous(before->0, timestamps[j], entropies[j]);
        if start is Some {
            lemma_run_exceeds_start(start->0, timestamps, entropies, i);
        }
    }
}

/// A run that starts from a value never remembers a smaller one.
pub proof fn lemma_run_exceeds_start(
    start: u128,
    timestamps: Seq<u64>,
    entropies: Seq<u128>,
    n: int,
)
    ensures
        state_after(Some(start), timestamps, entropies, n) is Some,
        start <= state_after(Some(start), timestamps, entropies, n)->0,
        outcome_of(Some(start), timestamps, entropies, n) is Ok ==> start < outcome_of(
            Some(start),
            timestamps,
            entropies,
            n,
        )->Ok_0,
    decreases n,
{
    if n > 0 {
        lemma_run_exceeds_start(start, timestamps, entropies, n - 1);
        let before = state_after(Some(start), timestamps, entropies, n - 1);
        lemma_answer_exceeds_previous(before->0, timestamps[n - 1], entropies[n - 1]);
    }
    let now = state_after(Some(start), timestamps, entropies, n);
    lemma_answer_exceeds_previous(now->0, timestamps[n], entropies[n]);
}

/// Two requests for the same millisecond on a new generator: both values
/// carry that timestamp, and the second payload is the first plus one. The
/// first payload must leave room for that: it is not `2^80 - 1`.
pub proof fn lemma_same_millisecond(timestamp: u64, first: u128, second: u128)
    requires
        timestamp <= MAX_TIMESTAMP,
        first % (MAX_RANDOM + 1) as u128 != MAX_RANDOM,
    ensures
        next_value(None, timestamp, first) is Ok,
        next_value(Some(next_value(None, timestamp, first)->Ok_0), timestamp, second) is Ok,
        ({
            let a = next_value(None, timestamp, first)->Ok_0;
            let b = next_value(Some(a), timestamp, second)->Ok_0;
            &&& timestamp_of(a) == timestamp
            &&& timestamp_of(b) == timestamp
            &&& random_of(b) == random_of(a) + 1
            &&& b == a + 1
        }),
{
}

/// A generator whose previous payload is `2^80 - 1` refuses a request for
/// the previous timestamp, or for an earlier one, with `RandomOverflow`, and
/// stays as it was.
pub proof fn lemma_exhausted_payload(previous: u128, timestamp: u64, entropy: u128)
    requires
        random_of(previous) == MAX_RANDOM,
        timestamp <= timestamp_of(previous),
    ensures
        next_value(Some(previous), timestamp, entropy) == Err::<u128, UlidError>(
            UlidError::RandomOverflow,
        ),
        next_state(Some(previous), next_value(Some(previous), timestamp, entropy)) == Some(
            previous,
        ),
{
}

} // verus!
