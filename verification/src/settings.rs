//! The inline completion settings that the environment may override: how
//! many history entries a prompt holds and how long requests are debounced.
use vstd::prelude::*;

use crate::completion::HISTORY_COUNT_DEFAULT;
use crate::text::{chars_of, decimal, digit_char};

verus! {

/// How long a request waits for newer keystrokes before it is sent, in
/// milliseconds, when the environment does not say.
pub const DEBOUNCE_MILLIS_DEFAULT: u64 = 300;

/// An ASCII decimal digit.
pub open spec fn is_digit(c: char) -> bool {
    48 <= (c as u32) <= 57
}

/// The value of an ASCII decimal digit.
pub open spec fn digit_value(c: char) -> nat {
    ((c as u32) - 48) as nat
}

/// The number that a string of decimal digits denotes.
pub open spec fn digits_value(s: Seq<char>) -> nat
    decreases s.len(),
{
    if s.len() == 0 {
        0
    } else {
        digits_value(s.drop_last()) * 10 + digit_value(s.last())
    }
}

/// The digits of an unsigned number: the text without one leading `+`.
pub open spec fn unsigned_digits(s: Seq<char>) -> Seq<char> {
    if s.len() > 0 && s[0] == '+' {
        s.drop_first()
    } else {
        s
    }
}

/// What `str::parse` gives for an unsigned integer type whose largest
/// value is `max`: an optional `+` followed by at least one decimal digit
/// and nothing else, denoting a value no larger than `max`.
pub open spec fn parse_unsigned(s: Seq<char>, max: nat) -> Option<nat> {
    let d = unsigned_digits(s);
    if d.len() > 0 && (forall|i: int| 0 <= i < d.len() ==> is_digit(#[trigger] d[i]))
        && digits_value(d) <= max {
        Some(digits_value(d))
    } else {
        None
    }
}

proof fn lemma_digits_value_grows(s: Seq<char>, i: int, j: int)
    requires
        0 <= i <= j <= s.len(),
    ensures
        digits_value(s.take(i)) <= digits_value(s.take(j)),
    decreases j - i,
{
    if i < j {
        lemma_digits_value_grows(s, i, j - 1);
        assert(s.take(j).drop_last() =~= s.take(j - 1));
    }
}

proof fn lemma_decimal_digits_value(n: nat)
    ensures
        forall|i: int| 0 <= i < decimal(n).len() ==> is_digit(#[trigger] decimal(n)[i]),
        digits_value(decimal(n)) == n,
    decreases n,
{
    let d = n % 10;
    assert(digit_char(d) as u32 == 48 + d);
    assert(digit_value(digit_char(d)) == d);
    assert(decimal(n).last() == digit_char(d));
    if n >= 10 {
        lemma_decimal_digits_value(n / 10);
        let s = decimal(n);
        assert(s.drop_last() =~= decimal(n / 10));
        assert forall|i: int| 0 <= i < s.len() implies is_digit(#[trigger] s[i]) by {
            if i < s.len() - 1 {
                assert(s[i] == decimal(n / 10)[i]);
            }
        }
    } else {
        let s = decimal(n);
        assert(s.drop_last() =~= Seq::<char>::empty());
        assert(digits_value(s.drop_last()) == 0);
    }
}

/// The decimal form of a number is made of digits that denote it, and
/// parsing it (with or without a leading `+`) gives the number back
/// whenever it is in range; an empty text or a lone `+` never parses.
pub proof fn law_decimal_parses_back(n: nat, max: nat)
    ensures
        forall|i: int| 0 <= i < decimal(n).len() ==> is_digit(#[trigger] decimal(n)[i]),
        digits_value(decimal(n)) == n,
        n <= max ==> parse_unsigned(decimal(n), max) == Some(n),
        n <= max ==> parse_unsigned(seq!['+'] + decimal(n), max) == Some(n),
        n > max ==> parse_unsigned(decimal(n), max) is None,
        parse_unsigned(Seq::empty(), max) is None,
        parse_unsigned(seq!['+'], max) is None,
        parse_unsigned(seq!['-'] + decimal(n), max) is None,
{
    lemma_decimal_digits_value(n);
    let d = decimal(n);
    assert(d.len() >= 1) by {
        crate::text::law_decimal_no_leading_zero(n);
    }
    assert(d[0] != '+') by {
        assert(is_digit(d[0]));
    }
    assert(unsigned_digits(d) == d);
    assert((seq!['+'] + d).drop_first() =~= d);
    assert(unsigned_digits(seq!['+']) =~= Seq::<char>::empty());
    let m = seq!['-'] + decimal(n);
    assert(unsigned_digits(m) == m);
    assert(!is_digit(m[0]));
}

/// Parses an unsigned decimal number no larger than `max`, as `str::parse`
/// does for an unsigned integer type with that largest value.
pub fn parse_unsigned_str(s: &str, max: u64) -> (res: Option<u64>)
    ensures
        match res {
            Some(n) => parse_unsigned(s@, max as nat) == Some(n as nat),
            None => parse_unsigned(s@, max as nat) is None,
        },
{
    let cs = chars_of(s);
    let start: usize = if cs.len() > 0 && cs[0] == '+' {
        1
    } else {
        0
    };
    let ghost d = unsigned_digits(s@);
    assert(d =~= cs@.skip(start as int));
    if start == cs.len() {
        return None;
    }
    let mut acc: u64 = 0;
    let mut i: usize = start;
    while i < cs.len()
        invariant
            start <= i <= cs.len(),
            cs@ == s@,
            d == cs@.skip(start as int),
            d == unsigned_digits(s@),
            d.len() > 0,
            forall|j: int| 0 <= j < i - start ==> is_digit(#[trigger] d[j]),
            acc == digits_value(d.take(i - start)),
            acc <= max,
        decreases cs.len() - i,
    {
        let v = cs[i] as u32;
        assert(d[i - start] == cs@[i as int]);
        if v < 48 || v > 57 {
            return None;
        }
        let digit = (v - 48) as u64;
        assert(d.take(i - start + 1).drop_last() =~= d.take(i - start));
        assert(d.take(i - start + 1).last() == cs@[i as int]);
        if digit > max || acc > (max - digit) / 10 {
            proof {
                assert(acc * 10 + digit > max) by (nonlinear_arith)
                    requires
                        digit > max || acc > (max - digit) / 10,
                        digit <= max ==> (max - digit) / 10 * 10 <= max - digit,
                        digit <= max ==> max - digit < ((max - digit) / 10 + 1) * 10,
                ;
                lemma_digits_value_grows(d, i - start + 1, d.len() as int);
                assert(d.take(d.len() as int) =~= d);
            }
            return None;
        }
        proof {
            assert(acc * 10 + digit <= max) by (nonlinear_arith)
                requires
                    acc <= (max - digit) / 10,
                    digit <= max,
            ;
        }
        acc = acc * 10 + digit;
        i = i + 1;
    }
    assert(d.take(d.len() as int) =~= d);
    Some(acc)
}

/// The history count: the environment's value when it parses as a `usize`,
/// else `HISTORY_COUNT_DEFAULT`.
pub fn history_count_setting(value: Option<&str>) -> (res: usize)
    ensures
        res == match value {
            Some(v) => match parse_unsigned(v@, usize::MAX as nat) {
                Some(n) => n,
                None => HISTORY_COUNT_DEFAULT as nat,
            },
            None => HISTORY_COUNT_DEFAULT as nat,
        },
{
    match value {
        Some(v) => match parse_unsigned_str(v, usize::MAX as u64) {
            Some(n) => n as usize,
            None => HISTORY_COUNT_DEFAULT,
        },
        None => HISTORY_COUNT_DEFAULT,
    }
}

/// The debounce delay in milliseconds: the environment's value when it
/// parses as a `u64`, else `DEBOUNCE_MILLIS_DEFAULT`.
pub fn debounce_millis_setting(value: Option<&str>) -> (res: u64)
    ensures
        res == match value {
            Some(v) => match parse_unsigned(v@, u64::MAX as nat) {
                Some(n) => n,
                None => DEBOUNCE_MILLIS_DEFAULT as nat,
            },
            None => DEBOUNCE_MILLIS_DEFAULT as nat,
        },
{
    match value {
        Some(v) => match parse_unsigned_str(v, u64::MAX) {
            Some(n) => n,
            None => DEBOUNCE_MILLIS_DEFAULT,
        },
        None => DEBOUNCE_MILLIS_DEFAULT,
    }
}

} // verus!
