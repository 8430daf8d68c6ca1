//! Decimal digits: spec-level notions of digit characters, digit runs inside
//! a character sequence, the numeric value of such a run, and the canonical
//! decimal representation of a number, together with verified conversion of
//! integers to their decimal text.

use vstd::prelude::*;
use vstd::arithmetic::div_mod::lemma_fundamental_div_mod;

verus! {

/// Whether `c` is an ASCII decimal digit.
pub open spec fn is_digit_char(c: char) -> bool {
    48 <= c as int && c as int <= 57
}

/// The numeric value of a digit character.
pub open spec fn digit_value(c: char) -> int {
    c as int - 48
}

/// The character for a single decimal digit value.
pub open spec fn digit_char(d: int) -> char {
    if d == 0 {
        '0'
    } else if d == 1 {
        '1'
    } else if d == 2 {
        '2'
    } else if d == 3 {
        '3'
    } else if d == 4 {
        '4'
    } else if d == 5 {
        '5'
    } else if d == 6 {
        '6'
    } else if d == 7 {
        '7'
    } else if d == 8 {
        '8'
    } else {
        '9'
    }
}

/// The decimal representation of `n`, most significant digit first; never
/// empty (zero is written "0").
pub open spec fn dec(n: nat) -> Seq<char>
    decreases n,
{
    if n < 10 {
        seq![digit_char(n as int)]
    } else {
        dec(n / 10) + seq![digit_char((n % 10) as int)]
    }
}

/// The length of the run of digit characters in `s` that starts at `from`.
pub open spec fn digit_run_len(s: Seq<char>, from: int) -> int
    decreases s.len() - from,
{
    if 0 <= from < s.len() && is_digit_char(s[from]) {
        1 + digit_run_len(s, from + 1)
    } else {
        0
    }
}

/// The numeric value of the digit characters of `s` from `from` (inclusive)
/// to `to` (exclusive), read as one decimal number.
pub open spec fn digits_value_range(s: Seq<char>, from: int, to: int) -> int
    decreases to - from,
{
    if to <= from {
        0
    } else {
        digits_value_range(s, from, to - 1) * 10 + digit_value(s[to - 1])
    }
}

/// `digit_char` and `digit_value` are inverse on single digit values.
pub proof fn lemma_digit_char_value(d: int)
    requires
        0 <= d < 10,
    ensures
        is_digit_char(digit_char(d)),
        digit_value(digit_char(d)) == d,
{
}

/// A decimal representation is a nonempty sequence of digit characters.
pub proof fn lemma_dec_digits(n: nat)
    ensures
        dec(n).len() >= 1,
        forall|i: int| 0 <= i < dec(n).len() ==> is_digit_char(#[trigger] dec(n)[i]),
    decreases n,
{
    if n < 10 {
        lemma_digit_char_value(n as int);
    } else {
        lemma_dec_digits(n / 10);
        lemma_digit_char_value((n % 10) as int);
        assert forall|i: int| 0 <= i < dec(n).len() implies is_digit_char(#[trigger] dec(n)[i]) by {
            if i < dec(n / 10).len() {
                assert(dec(n)[i] == dec(n / 10)[i]);
            } else {
                assert(dec(n)[i] == digit_char((n % 10) as int));
            }
        }
    }
}

/// A digit run ends exactly where the digits end: if everything from `from`
/// up to `to` is a digit and `to` is the end of the text or a non-digit, the
/// run starting at `from` is `to - from` long.
pub proof fn lemma_digit_run_len_is(s: Seq<char>, from: int, to: int)
    requires
        0 <= from <= to <= s.len(),
        forall|j: int| from <= j < to ==> is_digit_char(#[trigger] s[j]),
        to == s.len() || !is_digit_char(s[to]),
    ensures
        digit_run_len(s, from) == to - from,
    decreases to - from,
{
    if from < to {
        lemma_digit_run_len_is(s, from + 1, to);
    }
}

/// Reading the decimal representation of `n`, embedded in `s` at position
/// `from`, yields `n` again.
pub proof fn lemma_value_of_dec(s: Seq<char>, from: int, n: nat)
    requires
        0 <= from,
        from + dec(n).len() <= s.len(),
        forall|j: int| 0 <= j < dec(n).len() ==> s[from + j] == dec(n)[j],
    ensures
        digits_value_range(s, from, from + dec(n).len()) == n,
    decreases n,
{
    if n < 10 {
        lemma_digit_char_value(n as int);
        assert(s[from] == dec(n)[0]);
        assert(digits_value_range(s, from, from) == 0);
        assert(digits_value_range(s, from, from + 1) == digit_value(s[from]));
    } else {
        let prefix_len = dec(n / 10).len() as int;
        assert forall|j: int| 0 <= j < prefix_len implies s[from + j] == #[trigger] dec(n / 10)[j] by {
            assert(dec(n)[j] == dec(n / 10)[j]);
        }
        lemma_value_of_dec(s, from, n / 10);
        lemma_digit_char_value((n % 10) as int);
        assert(s[from + prefix_len] == dec(n)[prefix_len]);
        assert(dec(n)[prefix_len] == digit_char((n % 10) as int));
        assert(dec(n).len() == prefix_len + 1);
        assert(digits_value_range(s, from, from + prefix_len + 1) == digits_value_range(
            s,
            from,
            from + prefix_len,
        ) * 10 + digit_value(s[from + prefix_len]));
        lemma_fundamental_div_mod(n as int, 10);
        assert(n / 10 * 10 + n % 10 == n);
    }
}

/// The text of one decimal digit.
pub fn digit_str(d: u32) -> (s: &'static str)
    requires
        d < 10,
    ensures
        s@ == seq![digit_char(d as int)],
{
    let s: &'static str = match d {
        0 => "0",
        1 => "1",
        2 => "2",
        3 => "3",
        4 => "4",
        5 => "5",
        6 => "6",
        7 => "7",
        8 => "8",
        _ => "9",
    };
    proof {
        reveal_strlit("0");
        reveal_strlit("1");
        reveal_strlit("2");
        reveal_strlit("3");
        reveal_strlit("4");
        reveal_strlit("5");
        reveal_strlit("6");
        reveal_strlit("7");
        reveal_strlit("8");
        reveal_strlit("9");
        assert(s@ =~= seq![digit_char(d as int)]);
    }
    s
}

/// The decimal text of `n`.
pub fn u128_string(n: u128) -> (s: String)
    ensures
        s@ == dec(n as nat),
    decreases n,
{
    if n < 10 {
        let s = String::from_str(digit_str(n as u32));
        proof {
            assert(s@ =~= dec(n as nat));
        }
        s
    } else {
        let mut s = u128_string(n / 10);
        let d = n % 10;
        assert(d < 10);
        s.append(digit_str(d as u32));
        proof {
            assert(s@ =~= dec(n as nat));
        }
        s
    }
}

/// The decimal text of `n`.
pub fn u32_string(n: u32) -> (s: String)
    ensures
        s@ == dec(n as nat),
{
    u128_string(n as u128)
}

} // verus!
