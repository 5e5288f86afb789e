//! The Crockford base-32 alphabet: thirty-two symbols, digits first, then the
//! upper-case letters without `I`, `L`, `O` and `U`.

use vstd::prelude::*;

verus! {

/// The symbols in the order of the digits they stand for.
pub open spec fn alphabet() -> Seq<char> {
    "0123456789ABCDEFGHJKMNPQRSTVWXYZ"@
}

/// The symbol that stands for digit `d`, for `0 <= d < 32`.
pub open spec fn symbol(d: int) -> char {
    alphabet()[d]
}

/// `c` with an ASCII lower-case letter replaced by its upper-case form.
pub open spec fn ascii_upper(c: char) -> char {
    if 'a' <= c <= 'z' {
        ((c as int) - 32) as char
    } else {
        c
    }
}

/// `c` with an ASCII upper-case letter replaced by its lower-case form.
pub open spec fn ascii_lower(c: char) -> char {
    if 'A' <= c <= 'Z' {
        ((c as int) + 32) as char
    } else {
        c
    }
}

/// Whether `d` is a digit whose symbol is `c`, read without regard to case.
pub open spec fn stands_for(c: char, d: int) -> bool {
    0 <= d < 32 && symbol(d) == ascii_upper(c)
}

/// The digit that `c` stands for, in either case; `None` when `c` is not a
/// symbol of the alphabet.
pub open spec fn digit_value(c: char) -> Option<int> {
    if exists|d: int| stands_for(c, d) {
        Some(choose|d: int| stands_for(c, d))
    } else {
        None
    }
}

/// The alphabet in closed form: within each run of consecutive symbols the
/// code point grows with the digit.
pub proof fn lemma_symbol_closed_form(d: int)
    requires
        0 <= d < 32,
    ensures
        0 <= d < 10 ==> symbol(d) as int == '0' as int + d,
        10 <= d < 18 ==> symbol(d) as int == 'A' as int + (d - 10),
        18 <= d < 20 ==> symbol(d) as int == 'J' as int + (d - 18),
        20 <= d < 22 ==> symbol(d) as int == 'M' as int + (d - 20),
        22 <= d < 27 ==> symbol(d) as int == 'P' as int + (d - 22),
        27 <= d < 32 ==> symbol(d) as int == 'V' as int + (d - 27),
{
    reveal_strlit("0123456789ABCDEFGHJKMNPQRSTVWXYZ");
    let a = alphabet();
    assert(a.len() == 32);
    assert(a[0] == '0' && a[1] == '1' && a[2] == '2' && a[3] == '3' && a[4] == '4' && a[5] == '5'
        && a[6] == '6' && a[7] == '7' && a[8] == '8' && a[9] == '9');
    assert(a[10] == 'A' && a[11] == 'B' && a[12] == 'C' && a[13] == 'D' && a[14] == 'E' && a[15]
        == 'F' && a[16] == 'G' && a[17] == 'H');
    assert(a[18] == 'J' && a[19] == 'K' && a[20] == 'M' && a[21] == 'N');
    assert(a[22] == 'P' && a[23] == 'Q' && a[24] == 'R' && a[25] == 'S' && a[26] == 'T');
    assert(a[27] == 'V' && a[28] == 'W' && a[29] == 'X' && a[30] == 'Y' && a[31] == 'Z');
}

/// The digit of an upper-case symbol, by the run it lies in.
pub open spec fn closed_digit_value(u: char) -> Option<int> {
    if '0' <= u <= '9' {
        Some(u as int - '0' as int)
    } else if 'A' <= u <= 'H' {
        Some(u as int - 'A' as int + 10)
    } else if 'J' <= u <= 'K' {
        Some(u as int - 'J' as int + 18)
    } else if 'M' <= u <= 'N' {
        Some(u as int - 'M' as int + 20)
    } else if 'P' <= u <= 'T' {
        Some(u as int - 'P' as int + 22)
    } else if 'V' <= u <= 'Z' {
        Some(u as int - 'V' as int + 27)
    } else {
        None
    }
}

/// `digit_value` in closed form, and that it inverts `symbol`: the digit of
/// a character is the digit whose symbol is the character in upper case.
pub proof fn lemma_digit_value(c: char)
    ensures
        digit_value(c) == closed_digit_value(ascii_upper(c)),
        digit_value(c) matches Some(d) ==> 0 <= d < 32 && symbol(d) == ascii_upper(c),
{
    let u = ascii_upper(c);
    assert forall|d: int| 0 <= d < 32 implies (symbol(d) == u <==> closed_digit_value(u) == Some(
        d,
    )) by {
        lemma_symbol_closed_form(d);
    }
    match closed_digit_value(u) {
        Some(d) => {
            assert(stands_for(c, d));
        },
        None => {},
    }
}

/// Every digit is the value of its own symbol, in upper and in lower case.
pub proof fn lemma_digit_of_symbol(d: int)
    requires
        0 <= d < 32,
    ensures
        digit_value(symbol(d)) == Some(d),
        digit_value(ascii_lower(symbol(d))) == Some(d),
        ascii_upper(symbol(d)) == symbol(d),
        ascii_upper(ascii_lower(symbol(d))) == symbol(d),
{
    lemma_symbol_closed_form(d);
    lemma_digit_value(symbol(d));
    lemma_digit_value(ascii_lower(symbol(d)));
}

/// The symbol for digit `d`, in upper case, or in lower case when
/// `lowercase` is set.
pub fn symbol_of(d: u8, lowercase: bool) -> (c: char)
    requires
        d < 32,
    ensures
        c == if lowercase {
            ascii_lower(symbol(d as int))
        } else {
            symbol(d as int)
        },
{
    proof {
        lemma_symbol_closed_form(d as int);
    }
    let upper: u8 = if d < 10 {
        '0' as u8 + d
    } else if d < 18 {
        'A' as u8 + (d - 10)
    } else if d < 20 {
        'J' as u8 + (d - 18)
    } else if d < 22 {
        'M' as u8 + (d - 20)
    } else if d < 27 {
        'P' as u8 + (d - 22)
    } else {
        'V' as u8 + (d - 27)
    };
    let code: u8 = if lowercase && d >= 10 {
        upper + ('a' as u8 - 'A' as u8)
    } else {
        upper
    };
    code as char
}

/// The digit that `c` stands for, in either case.
pub fn digit_of(c: char) -> (r: Option<u8>)
    ensures
        match r {
            Some(d) => digit_value(c) == Some(d as int),
            None => digit_value(c) is None,
        },
{
    proof {
        lemma_digit_value(c);
    }
    if c > 'z' {
        return None;
    }
    let code: u8 = c as u8;
    let u: u8 = if 'a' as u8 <= code {
        code - ('a' as u8 - 'A' as u8)
    } else {
        code
    };
    if '0' as u8 <= u && u <= '9' as u8 {
        Some(u - '0' as u8)
    } else if 'A' as u8 <= u && u <= 'H' as u8 {
        Some(u - 'A' as u8 + 10)
    } else if 'J' as u8 <= u && u <= 'K' as u8 {
        Some(u - 'J' as u8 + 18)
    } else if 'M' as u8 <= u && u <= 'N' as u8 {
        Some(u - 'M' as u8 + 20)
    } else if 'P' as u8 <= u && u <= 'T' as u8 {
        Some(u - 'P' as u8 + 22)
    } else if 'V' as u8 <= u && u <= 'Z' as u8 {
        Some(u - 'V' as u8 + 27)
    } else {
        None
    }
}

} // verus!
