//! Reading a line of text: its characters, its space-separated fields, and
//! the decimal numbers written in it.

use vstd::prelude::*;

verus! {

/// The position of the first space of `s` at or after `from`, or the length
/// of `s` when there is none.
pub open spec fn next_space(s: Seq<char>, from: int) -> int
    decreases s.len() - from,
{
    if from >= s.len() {
        s.len() as int
    } else if s[from] == ' ' {
        from
    } else {
        next_space(s, from + 1)
    }
}

/// The position at which field `k` of `s` starts. Fields are separated by
/// single spaces, so a start beyond the end of `s` means that `s` has no
/// such field.
pub open spec fn field_start(s: Seq<char>, k: nat) -> int
    decreases k,
{
    if k == 0 {
        0
    } else {
        next_space(s, field_start(s, (k - 1) as nat)) + 1
    }
}

/// The position just after the last character of field `k` of `s`.
pub open spec fn field_end(s: Seq<char>, k: nat) -> int {
    next_space(s, field_start(s, k))
}

/// Whether `s` has a field `k`, counting from zero.
pub open spec fn has_field(s: Seq<char>, k: nat) -> bool {
    field_start(s, k) <= s.len()
}

/// Field `k` of `s`: the text between two neighbouring spaces, or between a
/// space and an end of `s`.
pub open spec fn field(s: Seq<char>, k: nat) -> Seq<char>
    recommends
        has_field(s, k),
{
    s.subrange(field_start(s, k), field_end(s, k))
}

/// Whether `c` is one of the digits `0` to `9`.
pub open spec fn is_digit(c: char) -> bool {
    '0' <= c <= '9'
}

/// The number that a sequence of digits denotes in base ten.
pub open spec fn decimal_value(digits: Seq<char>) -> nat
    decreases digits.len(),
{
    if digits.len() == 0 {
        0
    } else {
        decimal_value(digits.drop_last()) * 10 + (digits.last() as nat - '0' as nat) as nat
    }
}

/// Whether every character of `s` is a digit.
pub open spec fn all_digits(s: Seq<char>) -> bool {
    forall|i: int| 0 <= i < s.len() ==> is_digit(#[trigger] s[i])
}

/// The number that `digits` denote, when they are one or more digits and
/// the number fits in a `usize`.
pub open spec fn digits_value(digits: Seq<char>) -> Option<usize> {
    if digits.len() > 0 && all_digits(digits) && decimal_value(digits) <= usize::MAX {
        Some(decimal_value(digits) as usize)
    } else {
        None
    }
}

/// The number written in `s`: an optional `+`, then one or more digits and
/// nothing else. There is none when `s` is written otherwise, or when the
/// number does not fit in a `usize`.
pub open spec fn parse_usize(s: Seq<char>) -> Option<usize> {
    if s.len() > 0 && s[0] == '+' {
        digits_value(s.drop_first())
    } else {
        digits_value(s)
    }
}

/// A number with more digits is no smaller than the number that its leading
/// digits denote.
pub proof fn lemma_decimal_value_grows(digits: Seq<char>, n: int)
    requires
        0 <= n <= digits.len(),
        all_digits(digits),
    ensures
        decimal_value(digits.subrange(0, n)) <= decimal_value(digits),
    decreases digits.len() - n,
{
    if n == digits.len() {
        assert(digits.subrange(0, n) == digits);
    } else {
        let longer = digits.subrange(0, n + 1);
        assert(longer.drop_last() == digits.subrange(0, n));
        assert(is_digit(digits[n]));
        lemma_decimal_value_grows(digits, n + 1);
    }
}

/// The characters of `text`.
pub fn chars_of(text: &str) -> (chars: Vec<char>)
    ensures
        chars@ == text@,
{
    let mut chars: Vec<char> = Vec::new();
    for c in it: text.chars()
        invariant
            it.seq() == text@,
            chars@ == it.seq().subrange(0, it.index()),
    {
        chars.push(c);
    }
    assert(text@.subrange(0, text@.len() as int) == text@);
    chars
}

/// Whether `chars` begins with the characters of `prefix`.
pub fn has_prefix(chars: &Vec<char>, prefix: &str) -> (found: bool)
    ensures
        found == prefix@.is_prefix_of(chars@),
{
    let wanted = chars_of(prefix);
    if wanted.len() > chars.len() {
        return false;
    }
    let mut i: usize = 0;
    while i < wanted.len()
        invariant
            i <= wanted@.len() <= chars@.len(),
            wanted@ == prefix@,
            forall|j: int| 0 <= j < i ==> wanted@[j] == chars@[j],
        decreases wanted@.len() - i,
    {
        if wanted[i] != chars[i] {
            assert(chars@.subrange(0, wanted@.len() as int)[i as int] != wanted@[i as int]);
            return false;
        }
        i = i + 1;
    }
    assert(chars@.subrange(0, wanted@.len() as int) == wanted@);
    true
}

/// Finds the first space at or after `from`, or the end of `chars`.
pub fn find_space(chars: &Vec<char>, from: usize) -> (at: usize)
    requires
        from <= chars@.len(),
    ensures
        at == next_space(chars@, from as int),
        from <= at <= chars@.len(),
{
    let mut at: usize = from;
    while at < chars.len() && chars[at] != ' '
        invariant
            from <= at <= chars@.len(),
            next_space(chars@, from as int) == next_space(chars@, at as int),
        decreases chars@.len() - at,
    {
        at = at + 1;
    }
    at
}

/// Reads the digits `chars[from..to]`: see [`digits_value`].
fn parse_digits(chars: &Vec<char>, from: usize, to: usize) -> (res: Option<usize>)
    requires
        from <= to <= chars@.len(),
    ensures
        res == digits_value(chars@.subrange(from as int, to as int)),
{
    let ghost digits = chars@.subrange(from as int, to as int);
    if from == to {
        return None;
    }
    let mut value: usize = 0;
    let mut i: usize = from;
    while i < to
        invariant
            from <= i <= to <= chars@.len(),
            digits == chars@.subrange(from as int, to as int),
            all_digits(digits.subrange(0, i - from)),
            value == decimal_value(digits.subrange(0, i - from)),
        decreases to - i,
    {
        let c = chars[i];
        if c < '0' || c > '9' {
            assert(!is_digit(digits[i - from]));
            return None;
        }
        let digit = (c as u32 - '0' as u32) as usize;
        let ghost longer = digits.subrange(0, i - from + 1);
        proof {
            assert(longer.drop_last() == digits.subrange(0, i - from));
            assert(decimal_value(longer) == value * 10 + digit);
            assert forall|j: int| 0 <= j < longer.len() implies is_digit(#[trigger] longer[j]) by {
                if j < i - from {
                    assert(is_digit(digits.subrange(0, i - from)[j]));
                }
            }
        }
        if value > (usize::MAX - digit) / 10 {
            proof {
                if all_digits(digits) {
                    lemma_decimal_value_grows(digits, i - from + 1);
                }
            }
            return None;
        }
        value = value * 10 + digit;
        i = i + 1;
    }
    assert(digits.subrange(0, i - from) == digits);
    Some(value)
}

/// Reads the number written in `chars[from..to]`: see [`parse_usize`].
pub fn parse_number(chars: &Vec<char>, from: usize, to: usize) -> (res: Option<usize>)
    requires
        from <= to <= chars@.len(),
    ensures
        res == parse_usize(chars@.subrange(from as int, to as int)),
{
    let ghost s = chars@.subrange(from as int, to as int);
    if from < to && chars[from] == '+' {
        assert(s.drop_first() == chars@.subrange(from + 1, to as int));
        parse_digits(chars, from + 1, to)
    } else {
        parse_digits(chars, from, to)
    }
}

} // verus!
