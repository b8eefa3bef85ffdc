//! Unsigned decimal numbers as text: what a digit string is worth, and a
//! parser that accepts exactly the strings whose worth fits in 64 bits.

use crate::text::chars_of;
use vstd::prelude::*;

verus! {

/// Whether `c` is one of the ten decimal digits.
pub open spec fn is_digit(c: char) -> bool {
    '0' <= c <= '9'
}

/// The worth of the digit `c`; zero for any other character.
pub open spec fn digit_value(c: char) -> nat {
    if is_digit(c) {
        (c as u32 - '0' as u32) as nat
    } else {
        0
    }
}

/// Whether every character of `s` is a decimal digit.
pub open spec fn all_digits(s: Seq<char>) -> bool {
    forall|i: int| 0 <= i < s.len() ==> is_digit(#[trigger] s[i])
}

/// The number that the digit string `s` writes, most significant digit first.
pub open spec fn decimal_value(s: Seq<char>) -> nat
    decreases s.len(),
{
    if s.len() == 0 {
        0
    } else {
        10 * decimal_value(s.drop_last()) + digit_value(s.last())
    }
}

/// `s` without one leading plus sign, if it has one.
pub open spec fn without_sign(s: Seq<char>) -> Seq<char> {
    if s.len() > 0 && s.first() == '+' {
        s.drop_first()
    } else {
        s
    }
}

/// The number that `s` writes, where `s` is an optional plus sign followed by
/// at least one decimal digit and nothing else, and the number fits in 64
/// bits. Any other text writes no number.
pub open spec fn parse_u64(s: Seq<char>) -> Option<u64> {
    let digits = without_sign(s);
    if digits.len() > 0 && all_digits(digits) && decimal_value(digits) <= u64::MAX {
        Some(decimal_value(digits) as u64)
    } else {
        None
    }
}

/// The digit that writes `d`.
pub open spec fn digit_char(d: nat) -> char
    recommends
        d < 10,
{
    ('0' as u32 + d as u32) as char
}

/// The shortest digit string that writes `n`.
pub open spec fn decimal_digits(n: nat) -> Seq<char>
    decreases n,
{
    if n < 10 {
        seq![digit_char(n)]
    } else {
        decimal_digits(n / 10).push(digit_char(n % 10))
    }
}

/// A longer digit string is worth at least as much as any of its prefixes.
pub proof fn lemma_value_of_prefix(s: Seq<char>, k: int)
    requires
        0 <= k <= s.len(),
    ensures
        decimal_value(s.subrange(0, k)) <= decimal_value(s),
    decreases s.len() - k,
{
    if k == s.len() {
        assert(s.subrange(0, k) =~= s);
    } else {
        lemma_value_of_prefix(s.drop_last(), k);
        assert(s.drop_last().subrange(0, k) =~= s.subrange(0, k));
    }
}

/// The digits of a number write that number.
pub proof fn lemma_digits_write_value(n: nat)
    ensures
        decimal_digits(n).len() > 0,
        all_digits(decimal_digits(n)),
        decimal_value(decimal_digits(n)) == n,
    decreases n,
{
    if n < 10 {
        let s = decimal_digits(n);
        assert(s.len() == 1);
        assert(s[0] == digit_char(n));
        assert(s.drop_last().len() == 0);
        assert(decimal_value(s.drop_last()) == 0);
        assert(digit_value(digit_char(n)) == n);
    } else {
        lemma_digits_write_value(n / 10);
        let head = decimal_digits(n / 10);
        let s = head.push(digit_char(n % 10));
        assert(s.drop_last() =~= head);
        assert(s.last() == digit_char(n % 10));
        assert(digit_value(digit_char(n % 10)) == n % 10);
        assert forall|i: int| 0 <= i < s.len() implies is_digit(#[trigger] s[i]) by {
            if i < head.len() {
                assert(s[i] == head[i]);
            }
        }
    }
}

/// Every number that fits in 64 bits is read back from its digits.
pub proof fn lemma_parse_of_digits(n: nat)
    requires
        n <= u64::MAX,
    ensures
        parse_u64(decimal_digits(n)) == Some(n as u64),
{
    lemma_digits_write_value(n);
    let s = decimal_digits(n);
    assert(is_digit(s[0]));
    assert(s.first() != '+');
}

/// Decides whether `c` is a decimal digit, and if so gives its worth.
pub fn digit_of(c: char) -> (d: Option<u8>)
    ensures
        d is Some <==> is_digit(c),
        d matches Some(v) ==> v == digit_value(c) && v < 10,
{
    let n: u32 = c as u32;
    if 0x30 <= n && n <= 0x39 {
        Some((n - 0x30) as u8)
    } else {
        None
    }
}

/// Reads the number that the characters of `v` from `start` up to `end`
/// write.
pub(crate) fn parse_range(v: &Vec<char>, start: usize, end: usize) -> (number: Option<u64>)
    requires
        start <= end <= v.len(),
    ensures
        number == parse_u64(v@.subrange(start as int, end as int)),
{
    let ghost text = v@.subrange(start as int, end as int);
    let mut i: usize = start;
    if i < end && v[i] == '+' {
        i += 1;
    }
    let from: usize = i;
    let ghost digits = v@.subrange(from as int, end as int);
    proof {
        if from > start {
            assert(text.first() == '+');
            assert(text.drop_first() =~= digits);
        } else {
            if text.len() > 0 {
                assert(text.first() == v@[start as int]);
            }
            assert(text =~= digits);
        }
        assert(without_sign(text) == digits);
    }
    if from == end {
        return None;
    }
    let mut acc: u64 = 0;
    while i < end
        invariant
            start <= from <= i <= end <= v.len(),
            from < end,
            digits == v@.subrange(from as int, end as int),
            digits == without_sign(v@.subrange(start as int, end as int)),
            all_digits(digits.subrange(0, i - from)),
            acc == decimal_value(digits.subrange(0, i - from)),
        decreases end - i,
    {
        let ghost seen = digits.subrange(0, i - from);
        let ghost next = digits.subrange(0, i - from + 1);
        proof {
            assert(next.drop_last() =~= seen);
            assert(next.last() == v@[i as int]);
        }
        match digit_of(v[i]) {
            None => {
                proof {
                    assert(digits[i - from] == v@[i as int]);
                }
                return None;
            },
            Some(d) => {
                if acc > (u64::MAX - d as u64) / 10 {
                    proof {
                        assert(decimal_value(next) > u64::MAX);
                        lemma_value_of_prefix(digits, i - from + 1);
                    }
                    return None;
                }
                acc = acc * 10 + d as u64;
                proof {
                    assert forall|j: int| 0 <= j < next.len() implies is_digit(
                        #[trigger] next[j],
                    ) by {
                        if j < seen.len() {
                            assert(next[j] == seen[j]);
                        }
                    }
                }
            },
        }
        i += 1;
    }
    proof {
        assert(digits.subrange(0, i - from) =~= digits);
    }
    Some(acc)
}

/// Reads the number that `text` writes: an optional plus sign, then decimal
/// digits worth at most the largest 64-bit number. Signs other than one
/// leading plus, white space and all other characters make the text write no
/// number, as does a text without digits.
pub fn parse_number(text: &str) -> (number: Option<u64>)
    ensures
        number == parse_u64(text@),
{
    let chars = chars_of(text);
    assert(chars@.subrange(0, chars@.len() as int) =~= chars@);
    parse_range(&chars, 0, chars.len())
}

} // verus!
