//! Decimal notation of lengths, and reading it back.

use vstd::prelude::*;
use crate::text::{all_digits, chars_of, decimal, digit_char, digits_value, is_digit, parse_usize, unsigned_digits};

verus! {

broadcast use vstd::string::group_string_axioms;

/// The one-character text of the decimal digit `d`.
fn digit_str(d: usize) -> (r: &'static str)
    requires
        d < 10,
    ensures
        r@ == seq![digit_char(d as int)],
{
    if d == 0 {
        proof { reveal_strlit("0"); }
        "0"
    } else if d == 1 {
        proof { reveal_strlit("1"); }
        "1"
    } else if d == 2 {
        proof { reveal_strlit("2"); }
        "2"
    } else if d == 3 {
        proof { reveal_strlit("3"); }
        "3"
    } else if d == 4 {
        proof { reveal_strlit("4"); }
        "4"
    } else if d == 5 {
        proof { reveal_strlit("5"); }
        "5"
    } else if d == 6 {
        proof { reveal_strlit("6"); }
        "6"
    } else if d == 7 {
        proof { reveal_strlit("7"); }
        "7"
    } else if d == 8 {
        proof { reveal_strlit("8"); }
        "8"
    } else {
        proof { reveal_strlit("9"); }
        "9"
    }
}

/// The decimal notation of `n`, as `format!("{}", n)` writes it.
pub fn decimal_string(n: usize) -> (r: String)
    ensures
        r@ == decimal(n as nat),
    decreases n,
{
    if n < 10 {
        digit_str(n).to_owned()
    } else {
        let mut r = decimal_string(n / 10);
        r.append(digit_str(n % 10));
        r
    }
}

/// A longer run of digits never denotes less than its beginning.
proof fn lemma_digits_value_prefix(d: Seq<char>, k: int)
    requires
        0 <= k <= d.len(),
    ensures
        digits_value(d.take(k)) <= digits_value(d),
    decreases d.len(),
{
    if k < d.len() {
        lemma_digits_value_prefix(d.drop_last(), k);
        assert(d.drop_last().take(k) =~= d.take(k));
    } else {
        assert(d.take(k) =~= d);
    }
}

/// The number that `s` denotes, as `s.parse::<usize>()` reads it, or `None` where that fails.
pub fn parse_usize_str(s: &str) -> (r: Option<usize>)
    ensures
        r == parse_usize(s@),
{
    let cs = chars_of(s);
    let n = cs.len();
    let mut start: usize = 0;
    if n > 0 && cs[0] == '+' {
        start = 1;
    }
    let ghost d = unsigned_digits(s@);
    assert(d =~= s@.skip(start as int));
    if start == n {
        return None;
    }
    let mut v: usize = 0;
    let mut i: usize = start;
    assert(d.take(0) =~= Seq::<char>::empty());
    while i < n
        invariant
            start <= i <= n,
            n == cs@.len(),
            cs@ == s@,
            d == s@.skip(start as int),
            d == unsigned_digits(s@),
            d.len() > 0,
            forall|j: int| 0 <= j < i - start ==> is_digit(#[trigger] d[j]),
            v == digits_value(d.take(i - start)),
        decreases n - i,
    {
        let c = cs[i];
        let x = c as u32;
        assert(d[i - start] == c);
        let ghost k = i - start;
        assert(is_digit(c) <==> (48 <= x && x <= 57));
        if x < 48 || x > 57 {
            assert(!is_digit(d[k]));
            assert(!all_digits(d));

            return None;
        }
        assert(d.take(k + 1).drop_last() =~= d.take(k));
        assert(d.take(k + 1).last() == c);
        let digit = (x - 48) as usize;
        assert(digits_value(d.take(k + 1)) == v * 10 + digit);
        match v.checked_mul(10) {
            None => {
                proof {
                    lemma_digits_value_prefix(d, k + 1);
                }
                return None;
            },
            Some(m) => match m.checked_add(digit) {
                None => {
                    proof {
                        lemma_digits_value_prefix(d, k + 1);
                    }
                    return None;
                },
                Some(w) => {
                    v = w;
                },
            },
        }
        i = i + 1;
    }
    assert(d.take(n - start) =~= d);
    Some(v)
}

/// The character of a digit, and the digit it stands for.
proof fn lemma_digit_char(d: int)
    requires
        0 <= d < 10,
    ensures
        digit_char(d) as u32 == 48 + d,
        is_digit(digit_char(d)),
{
}

/// All characters of a decimal notation are digits, and they denote the number written.
proof fn lemma_decimal_digits(n: nat)
    ensures
        decimal(n).len() > 0,
        forall|i: int| 0 <= i < decimal(n).len() ==> is_digit(#[trigger] decimal(n)[i]),
        digits_value(decimal(n)) == n,
        decimal(n)[0] != '+',
    decreases n,
{
    if n < 10 {
        lemma_digit_char(n as int);
        assert(decimal(n).drop_last() =~= Seq::<char>::empty());
        assert(digits_value(Seq::<char>::empty()) == 0);
    } else {
        lemma_digit_char((n % 10) as int);
        assert(n == (n / 10) * 10 + n % 10);
        lemma_decimal_digits(n / 10);
        let s = decimal(n);
        assert(s.drop_last() =~= decimal(n / 10));
        assert(digits_value(s) == digits_value(decimal(n / 10)) * 10 + (s.last() as u32 - 48) as nat);
        assert forall|i: int| 0 <= i < s.len() implies is_digit(#[trigger] s[i]) by {
            if i < s.len() - 1 {
                assert(s[i] == decimal(n / 10)[i]);
            }
        }
    }
}

/// A length that the server writes in decimal is read back as the same length:
/// parsing the decimal notation of any `n` gives `n`.
pub proof fn law_decimal_parses_back(n: usize)
    ensures
        parse_usize(decimal(n as nat)) == Some(n),
{
    lemma_decimal_digits(n as nat);
    assert(all_digits(decimal(n as nat)));
    assert(unsigned_digits(decimal(n as nat)) == decimal(n as nat));
}

} // verus!
