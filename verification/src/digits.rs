//! Lemmas about base-32 positional notation: the weight of a place, the
//! number that a text writes, and the digits of a number.

use crate::alphabet::{
    ascii_lower, ascii_upper, digit_value, lemma_digit_of_symbol, lemma_digit_value,
    lemma_symbol_closed_form, symbol,
};
use crate::codec::{
    all_symbols, digit_at, digit_or_zero, encode_spec, lower_text, place, text_value, upper_text,
};
use vstd::arithmetic::div_mod::{lemma_basic_div, lemma_div_denominator, lemma_div_is_ordered};
use vstd::arithmetic::power2::{lemma2_to64, lemma_pow2_adds, lemma_pow2_pos, pow2};
use vstd::prelude::*;

verus! {

/// The weights are positive and each is 32 times the one before it.
pub proof fn lemma_place(k: int)
    requires
        0 <= k,
    ensures
        place(0) == 1,
        place(k) > 0,
        place(k + 1) == 32 * place(k),
{
    lemma2_to64();
    lemma_pow2_pos((5 * k) as nat);
    lemma_pow2_adds((5 * k) as nat, 5);
    assert((5 * (k + 1)) as nat == (5 * k) as nat + 5);
}

/// The two weights that bound a 128-bit value: `32^25 = 2^125`, so that
/// `8 * 32^25 = 2^128`, and `32^26 = 2^130`.
pub proof fn lemma_place_top()
    ensures
        place(25) == 0x2000_0000_0000_0000_0000_0000_0000_0000,
        place(26) == 0x4_0000_0000_0000_0000_0000_0000_0000_0000,
{
    lemma2_to64();
    lemma_pow2_adds(64, 61);
    lemma_pow2_adds(32, 29);
    lemma_pow2_adds(64, 64);
    lemma_pow2_adds(128, 2);
    lemma_pow2_adds(125, 3);
    assert(pow2(61) == 0x2000_0000_0000_0000) by {
        assert(pow2(32) * pow2(29) == 0x2000_0000_0000_0000);
    }
    assert(pow2(125) == 0x2000_0000_0000_0000_0000_0000_0000_0000) by {
        assert(pow2(64) * pow2(61) == 0x2000_0000_0000_0000_0000_0000_0000_0000);
    }
    assert(pow2(130) == 0x4_0000_0000_0000_0000_0000_0000_0000_0000) by {
        assert(pow2(128) == pow2(125) * 8);
        assert(pow2(130) == pow2(128) * 4);
    }
}

/// A digit lies between 0 and 31.
pub proof fn lemma_digit_range(c: char)
    ensures
        0 <= digit_or_zero(c) < 32,
{
    lemma_digit_value(c);
}

/// A text of `n` characters writes a number below `32^n`.
pub proof fn lemma_text_value_bound(s: Seq<char>)
    ensures
        0 <= text_value(s) < place(s.len() as int),
    decreases s.len(),
{
    lemma_place(0);
    if s.len() > 0 {
        lemma_text_value_bound(s.drop_last());
        lemma_digit_range(s.last());
        lemma_place(s.len() - 1);
    }
}

/// Two texts whose characters stand for the same digits write the same
/// number.
pub proof fn lemma_text_value_by_digits(s: Seq<char>, t: Seq<char>)
    requires
        s.len() == t.len(),
        forall|i: int| 0 <= i < s.len() ==> digit_or_zero(s[i]) == digit_or_zero(t[i]),
    ensures
        text_value(s) == text_value(t),
    decreases s.len(),
{
    if s.len() > 0 {
        lemma_text_value_by_digits(s.drop_last(), t.drop_last());
    }
}

/// Dropping the last `n - k` digits of a text of `n` characters divides its
/// number by `32^(n - k)`.
pub proof fn lemma_text_value_prefix(s: Seq<char>, k: int)
    requires
        0 <= k <= s.len(),
    ensures
        text_value(s) / place(s.len() - k) == text_value(s.take(k)),
    decreases s.len(),
{
    lemma_place(0);
    if k == s.len() {
        assert(s.take(k) =~= s);
    } else {
        let t = s.drop_last();
        let rest = t.len() - k;
        lemma_text_value_bound(s);
        lemma_text_value_bound(t);
        lemma_digit_range(s.last());
        lemma_place(rest);
        lemma_div_denominator(text_value(s), 32, place(rest));
        assert(text_value(s) / 32 == text_value(t));
        assert(place(s.len() - k) == 32 * place(rest));
        lemma_text_value_prefix(t, k);
        assert(t.take(k) =~= s.take(k));
        assert(text_value(s) / place(s.len() - k) == text_value(t) / place(rest));
    }
}

/// The digits of the number that a 26-character text writes are the digits of
/// its characters.
pub proof fn lemma_digits_of_text(s: Seq<char>, i: int)
    requires
        s.len() == 26,
        text_value(s) <= u128::MAX,
        0 <= i < 26,
    ensures
        digit_at(text_value(s) as u128, i) == digit_or_zero(s[i]),
{
    lemma_text_value_bound(s);
    lemma_text_value_prefix(s, i + 1);
    let p = s.take(i + 1);
    assert(p.drop_last() =~= s.take(i));
    assert(p.last() == s[i]);
    lemma_digit_range(s[i]);
}

/// A 26-character text writes a number that fits in 128 bits exactly when its
/// first digit is below 8.
pub proof fn lemma_fits_iff_first_digit(s: Seq<char>)
    requires
        s.len() == 26,
    ensures
        text_value(s) <= u128::MAX <==> digit_or_zero(s[0]) < 8,
{
    lemma_place_top();
    lemma_text_value_bound(s);
    lemma_text_value_prefix(s, 1);
    let p = s.take(1);
    assert(p.drop_last().len() == 0);
    assert(text_value(p.drop_last()) == 0);
    assert(p.last() == s[0]);
    assert(text_value(p) == digit_or_zero(s[0]));
}

/// The first `k` symbols of the text of `value` write `value` without its
/// last `26 - k` digits.
pub proof fn lemma_encode_prefix(value: u128, k: int)
    requires
        0 <= k <= 26,
    ensures
        text_value(encode_spec(value).take(k)) == value as int / place(26 - k),
    decreases k,
{
    let e = encode_spec(value);
    lemma_place_top();
    if k == 0 {
        assert(e.take(0).len() == 0);
        lemma_basic_div(value as int, place(26));
    } else {
        lemma_encode_prefix(value, k - 1);
        let p = e.take(k);
        let d = digit_at(value, k - 1);
        assert(p.drop_last() =~= e.take(k - 1));
        assert(p.last() == symbol(d));
        lemma_place(26 - k);
        lemma_digit_of_symbol(d);
        lemma_div_denominator(value as int, place(26 - k), 32);
        let q = value as int / place(26 - k);
        assert(place(27 - k) == place(26 - k) * 32);
        assert(q / 32 == value as int / place(27 - k));
        assert(d == q % 32);
        assert(text_value(p) == text_value(e.take(k - 1)) * 32 + d);
    }
}

/// The text of `value` writes `value`, and all its characters are symbols.
pub proof fn lemma_text_of_value(value: u128)
    ensures
        all_symbols(encode_spec(value)),
        text_value(encode_spec(value)) == value,
{
    let e = encode_spec(value);
    assert forall|i: int| 0 <= i < e.len() implies (#[trigger] digit_value(e[i])) is Some by {
        lemma_place(25 - i);
        lemma_digit_of_symbol(digit_at(value, i));
    }
    lemma_encode_prefix(value, 26);
    lemma_place(0);
    assert(e.take(26) =~= e);
    assert(value as int / place(0) == value);
}

/// A greater digit has a greater symbol, in upper and in lower case.
pub proof fn lemma_symbols_increase(d1: int, d2: int)
    requires
        0 <= d1 < d2 < 32,
    ensures
        symbol(d1) < symbol(d2),
        ascii_lower(symbol(d1)) < ascii_lower(symbol(d2)),
{
    lemma_symbol_closed_form(d1);
    lemma_symbol_closed_form(d2);
}

/// Of two values that agree in their first `k` digits, the smaller has the
/// smaller digit at the first place where they differ. The result is that
/// place.
pub proof fn lemma_first_difference(a: u128, b: u128, k: int) -> (j: int)
    requires
        a < b,
        0 <= k < 26,
        a as int / place(26 - k) == b as int / place(26 - k),
    ensures
        k <= j < 26,
        forall|i: int| k <= i < j ==> digit_at(a, i) == digit_at(b, i),
        digit_at(a, j) < digit_at(b, j),
    decreases 26 - k,
{
    lemma_place(25 - k);
    lemma_place(0);
    lemma_div_denominator(a as int, place(25 - k), 32);
    lemma_div_denominator(b as int, place(25 - k), 32);
    lemma_div_is_ordered(a as int, b as int, place(25 - k));
    let qa = a as int / place(25 - k);
    let qb = b as int / place(25 - k);
    assert(place(26 - k) == place(25 - k) * 32);
    assert(qa / 32 == qb / 32);
    assert(qa <= qb);
    assert(digit_at(a, k) == qa % 32 && digit_at(b, k) == qb % 32);
    if qa == qb {
        if k == 25 {
            assert(place(25 - k) == 1);
            assert(a as int / 1 == a && b as int / 1 == b);
        }
        lemma_first_difference(a, b, k + 1)
    } else {
        k
    }
}

/// The case of a letter does not change the digit it stands for.
pub proof fn lemma_digit_ignores_case(c: char)
    ensures
        digit_value(ascii_upper(c)) == digit_value(c),
        digit_value(ascii_lower(c)) == digit_value(c),
{
    lemma_digit_value(c);
    lemma_digit_value(ascii_upper(c));
    lemma_digit_value(ascii_lower(c));
}

/// Changing the case of a text changes neither whether its characters are
/// symbols nor the number it writes.
pub proof fn lemma_text_ignores_case(s: Seq<char>)
    ensures
        all_symbols(upper_text(s)) == all_symbols(s),
        all_symbols(lower_text(s)) == all_symbols(s),
        text_value(upper_text(s)) == text_value(s),
        text_value(lower_text(s)) == text_value(s),
{
    let u = upper_text(s);
    let l = lower_text(s);
    assert forall|i: int| 0 <= i < s.len() implies digit_value(u[i]) == digit_value(s[i])
        && digit_value(l[i]) == digit_value(s[i]) by {
        lemma_digit_ignores_case(s[i]);
    }
    if all_symbols(s) {
        assert forall|i: int| 0 <= i < u.len() implies (#[trigger] digit_value(u[i])) is Some by {
            assert(digit_value(s[i]) is Some);
        }
        assert forall|i: int| 0 <= i < l.len() implies (#[trigger] digit_value(l[i])) is Some by {
            assert(digit_value(s[i]) is Some);
        }
    }
    if all_symbols(u) {
        assert forall|i: int| 0 <= i < s.len() implies (#[trigger] digit_value(s[i])) is Some by {
            assert(digit_value(u[i]) is Some);
        }
    }
    if all_symbols(l) {
        assert forall|i: int| 0 <= i < s.len() implies (#[trigger] digit_value(s[i])) is Some by {
            assert(digit_value(l[i]) is Some);
        }
    }
    lemma_text_value_by_digits(u, s);
    lemma_text_value_by_digits(l, s);
}

} // verus!
