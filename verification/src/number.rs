//! Numeric literals: which texts write a signed decimal number.
use vstd::prelude::*;
use crate::chars::chars_of;

verus! {

/// An ASCII digit.
pub open spec fn is_decimal_digit(c: char) -> bool {
    '0' <= c && c <= '9'
}

/// Where the maximal run of ASCII digits that starts at `i` ends.
pub open spec fn digits_end(s: Seq<char>, i: int) -> int
    decreases s.len() - i,
{
    if 0 <= i < s.len() && is_decimal_digit(s[i]) {
        digits_end(s, i + 1)
    } else {
        i
    }
}

/// Whether `s` writes a signed decimal number: an optional `-`, one or
/// more digits, and optionally a `.` with one or more digits behind it.
pub open spec fn is_number(s: Seq<char>) -> bool {
    let start: int = if s.len() > 0 && s[0] == '-' {
        1
    } else {
        0
    };
    let whole = digits_end(s, start);
    &&& whole > start
    &&& (whole == s.len() || (s[whole] == '.' && digits_end(s, whole + 1) > whole + 1
        && digits_end(s, whole + 1) == s.len()))
}

/// Whether each of the texts writes a signed decimal number.
pub open spec fn all_numbers(list: Seq<Seq<char>>) -> bool {
    forall|i: int| 0 <= i < list.len() ==> is_number(#[trigger] list[i])
}

fn digits_stop(v: &Vec<char>, from: usize) -> (end: usize)
    requires
        from <= v@.len(),
    ensures
        end == digits_end(v@, from as int),
        from <= end <= v@.len(),
{
    let n: usize = v.len();
    let mut end: usize = from;
    while end < n && '0' <= v[end] && v[end] <= '9'
        invariant
            n == v@.len(),
            from <= end <= n,
            digits_end(v@, from as int) == digits_end(v@, end as int),
        decreases n - end,
    {
        end += 1;
    }
    end
}

/// Whether the characters `v` write a signed decimal number.
pub fn is_number_chars(v: &Vec<char>) -> (b: bool)
    ensures
        b == is_number(v@),
{
    let n: usize = v.len();
    let start: usize = if n > 0 && v[0] == '-' {
        1
    } else {
        0
    };
    let whole: usize = digits_stop(v, start);
    if whole == start {
        false
    } else if whole == n {
        true
    } else if v[whole] == '.' {
        let fraction: usize = digits_stop(v, whole + 1);
        fraction > whole + 1 && fraction == n
    } else {
        false
    }
}

/// Whether `text` writes a signed decimal number, such as `-2`, `2.1` or
/// `01.2`.
pub fn is_number_text(text: &String) -> (b: bool)
    ensures
        b == is_number(text@),
{
    let v = chars_of(text.as_str());
    is_number_chars(&v)
}

/// Where the digits before the decimal point end.
pub open spec fn whole_end(s: Seq<char>) -> int {
    digits_end(
        s,
        if s.len() > 0 && s[0] == '-' {
            1
        } else {
            0
        },
    )
}

/// Whether `s` writes the number zero: a number all of whose digits are 0.
pub open spec fn is_zero_number(s: Seq<char>) -> bool {
    is_number(s) && forall|i: int| 0 <= i < s.len() ==> !('1' <= #[trigger] s[i] && s[i] <= '9')
}

/// Whether `s` writes a number below zero.
pub open spec fn is_negative_number(s: Seq<char>) -> bool {
    is_number(s) && s[0] == '-' && !is_zero_number(s)
}

/// Whether `s` writes a number whose whole part, the number cut at its
/// decimal point, is even.
pub open spec fn has_even_whole(s: Seq<char>) -> bool {
    is_number(s) && {
        let last = s[whole_end(s) - 1];
        last == '0' || last == '2' || last == '4' || last == '6' || last == '8'
    }
}

/// Whether `text` writes the number zero.
pub fn is_zero_text(text: &String) -> (b: bool)
    ensures
        b == is_zero_number(text@),
{
    let v = chars_of(text.as_str());
    if !is_number_chars(&v) {
        return false;
    }
    let mut i: usize = 0;
    while i < v.len()
        invariant
            v@ == text@,
            is_number(text@),
            i <= v@.len(),
            forall|k: int| 0 <= k < i ==> !('1' <= #[trigger] v@[k] && v@[k] <= '9'),
        decreases v@.len() - i,
    {
        if '1' <= v[i] && v[i] <= '9' {
            assert('1' <= text@[i as int] && text@[i as int] <= '9');
            return false;
        }
        i += 1;
    }
    true
}

/// Whether `text` writes a number below zero.
pub fn is_negative_text(text: &String) -> (b: bool)
    ensures
        b == is_negative_number(text@),
{
    let v = chars_of(text.as_str());
    is_number_chars(&v) && v[0] == '-' && !is_zero_text(text)
}

/// Whether `text` writes a number whose whole part is even.
pub fn has_even_whole_text(text: &String) -> (b: bool)
    ensures
        b == has_even_whole(text@),
{
    let v = chars_of(text.as_str());
    if !is_number_chars(&v) {
        return false;
    }
    let start: usize = if v[0] == '-' {
        1
    } else {
        0
    };
    let whole: usize = digits_stop(&v, start);
    let last: char = v[whole - 1];
    last == '0' || last == '2' || last == '4' || last == '6' || last == '8'
}

} // verus!
