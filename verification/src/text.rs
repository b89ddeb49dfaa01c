//! Reading a cell number or a mark from a line of text.

use vstd::prelude::*;
use vstd::string::*;
use crate::board::is_cell;
use crate::sign::Sign;

verus! {

/// One of the characters `0` to `9`.
pub open spec fn is_digit(c: char) -> bool {
    '0' <= c <= '9'
}

/// The number that a digit stands for.
pub open spec fn digit_value(c: char) -> int {
    c as u32 - '0' as u32
}

/// The number that a row of digits stands for in base ten.
pub open spec fn numeral_value(digits: Seq<char>) -> int
    decreases digits.len(),
{
    if digits.len() == 0 {
        0
    } else {
        10 * numeral_value(digits.drop_last()) + digit_value(digits.last())
    }
}

/// One digit or more, and nothing else.
pub open spec fn is_numeral(digits: Seq<char>) -> bool {
    digits.len() > 0 && forall|i: int| 0 <= i < digits.len() ==> is_digit(#[trigger] digits[i])
}

/// The integer that a text denotes: a numeral of any length, with `+` or `-`
/// in front of it or neither. Any other text, one with blanks included,
/// denotes nothing.
pub open spec fn integer_of_text(text: Seq<char>) -> Option<int> {
    if text.len() > 0 && text[0] == '-' {
        if is_numeral(text.skip(1)) {
            Some(-numeral_value(text.skip(1)))
        } else {
            None
        }
    } else if text.len() > 0 && text[0] == '+' {
        if is_numeral(text.skip(1)) {
            Some(numeral_value(text.skip(1)))
        } else {
            None
        }
    } else if is_numeral(text) {
        Some(numeral_value(text))
    } else {
        None
    }
}

/// The cell that a text names: the integer it denotes, where that is one of
/// 1..=9.
pub open spec fn cell_of_text(text: Seq<char>) -> Option<int> {
    match integer_of_text(text) {
        Some(value) => if is_cell(value) {
            Some(value)
        } else {
            None
        },
        None => None,
    }
}

/// The mark that a text names: the letter `X` or the letter `O`, in upper or
/// in lower case, and nothing around it.
pub open spec fn sign_of_text(text: Seq<char>) -> Option<Sign> {
    if text.len() != 1 {
        None
    } else if text[0] == 'X' || text[0] == 'x' {
        Some(Sign::X)
    } else if text[0] == 'O' || text[0] == 'o' {
        Some(Sign::O)
    } else {
        None
    }
}

/// The mark that `text` names, if it names one.
pub fn parse_sign(text: &str) -> (sign: Option<Sign>)
    ensures
        sign == sign_of_text(text@),
{
    if text.unicode_len() != 1 {
        return None;
    }
    let letter = text.get_char(0);
    if letter == 'X' || letter == 'x' {
        Some(Sign::X)
    } else if letter == 'O' || letter == 'o' {
        Some(Sign::O)
    } else {
        None
    }
}

/// A number as far as it matters for telling cells apart: everything from
/// ten on counts as ten.
spec fn capped(value: int) -> int {
    if value >= 10 {
        10
    } else {
        value
    }
}

/// Appending a digit to a numeral multiplies its value by ten and adds the digit.
proof fn lemma_numeral_push(text: Seq<char>, start: int, end: int)
    requires
        0 <= start <= end < text.len(),
    ensures
        numeral_value(text.subrange(start, end + 1)) == 10 * numeral_value(
            text.subrange(start, end),
        ) + digit_value(text[end]),
{
    let longer = text.subrange(start, end + 1);
    assert(longer.drop_last() =~= text.subrange(start, end));
    assert(longer.last() == text[end]);
}

/// The cell that `text` names, if it names one.
pub fn parse_cell(text: &str) -> (cell: Option<i8>)
    ensures
        cell is None <==> cell_of_text(text@) is None,
        cell matches Some(number) ==> cell_of_text(text@) == Some(number as int),
{
    let n = text.unicode_len();
    if n == 0 {
        return None;
    }
    let first = text.get_char(0);
    let start: usize = if first == '-' || first == '+' {
        1
    } else {
        0
    };
    if start == n {
        return None;
    }
    let ghost digits = text@.skip(start as int);
    let mut value: i8 = 0;
    let mut i: usize = start;
    while i < n
        invariant
            start <= i <= n,
            n == text@.len(),
            first == text@[0],
            start == if first == '-' || first == '+' { 1int } else { 0int },
            digits == text@.skip(start as int),
            forall|j: int| start <= j < i ==> is_digit(#[trigger] text@[j]),
            0 <= value <= 10,
            value == capped(numeral_value(text@.subrange(start as int, i as int))),
        decreases n - i,
    {
        let c = text.get_char(i);
        if c < '0' || c > '9' {
            assert(!is_digit(digits[i - start]));
            return None;
        }
        let digit = (c as u32 - '0' as u32) as i8;
        proof {
            lemma_numeral_push(text@, start as int, i as int);
        }
        value = if value > 9 || value * 10 + digit > 9 {
            10
        } else {
            value * 10 + digit
        };
        i += 1;
    }
    assert(text@.subrange(start as int, n as int) =~= digits);
    assert(start == 0 ==> digits =~= text@);
    if first == '-' || value < 1 || value > 9 {
        None
    } else {
        Some(value)
    }
}

} // verus!
