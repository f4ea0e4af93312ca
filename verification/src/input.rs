//! The seven command-line arguments: six numbers and a target.

use crate::render::{decimal, digit};
use vstd::prelude::*;
use vstd::string::StrSliceExecFns;

verus! {

/// The exit status of a program that was called with the wrong number of
/// arguments.
pub const EX_USAGE: i32 = 64;

/// Six numbers to combine and the target to reach.
#[derive(Debug, PartialEq, Eq)]
pub struct Puzzle {
    pub numbers: Vec<usize>,
    pub target: usize,
}

/// Why the arguments are not a puzzle.
#[derive(Debug, Clone, Copy, PartialEq, Eq, Structural)]
pub enum InputError {
    /// There are not exactly seven arguments.
    Usage,
    /// There are seven arguments, and one of them is not a number.
    Malformed,
}

/// The value of a decimal digit; `None` for any other character.
pub open spec fn digit_of(c: char) -> Option<nat> {
    if c == '0' {
        Some(0)
    } else if c == '1' {
        Some(1)
    } else if c == '2' {
        Some(2)
    } else if c == '3' {
        Some(3)
    } else if c == '4' {
        Some(4)
    } else if c == '5' {
        Some(5)
    } else if c == '6' {
        Some(6)
    } else if c == '7' {
        Some(7)
    } else if c == '8' {
        Some(8)
    } else if c == '9' {
        Some(9)
    } else {
        None
    }
}

/// Every character is a decimal digit.
pub open spec fn all_digits(text: Seq<char>) -> bool {
    forall|i: int| 0 <= i < text.len() ==> digit_of(#[trigger] text[i]).is_some()
}

/// The number that the digits spell, most significant first. A character
/// that is no digit counts as zero.
pub open spec fn digits_value(text: Seq<char>) -> nat
    decreases text.len(),
{
    if text.len() == 0 {
        0
    } else {
        10 * digits_value(text.drop_last()) + match digit_of(text.last()) {
            Some(d) => d,
            None => 0,
        }
    }
}

/// The text without its leading plus sign, if it has one.
pub open spec fn unsigned(text: Seq<char>) -> Seq<char> {
    if text.len() > 0 && text[0] == '+' {
        text.skip(1)
    } else {
        text
    }
}

/// The number that a text stands for: an optional plus sign, then one or
/// more decimal digits that spell a value within `usize`. Any other text
/// stands for none.
pub open spec fn number_of(text: Seq<char>) -> Option<usize> {
    let digits = unsigned(text);
    if digits.len() > 0 && all_digits(digits) && digits_value(digits) <= usize::MAX {
        Some(digits_value(digits) as usize)
    } else {
        None
    }
}

/// The digits spell at least what any of their prefixes spells.
proof fn lemma_prefix_value(text: Seq<char>, k: int)
    requires
        0 <= k <= text.len(),
    ensures
        digits_value(text.take(k)) <= digits_value(text),
    decreases text.len(),
{
    if k == text.len() {
        assert(text.take(k) =~= text);
    } else {
        assert(text.take(k) =~= text.drop_last().take(k));
        lemma_prefix_value(text.drop_last(), k);
    }
}

/// The value of a decimal digit.
fn digit_value(c: char) -> (value: Option<usize>)
    ensures
        match value {
            Some(d) => digit_of(c) == Some(d as nat),
            None => digit_of(c).is_none(),
        },
{
    match c {
        '0' => Some(0),
        '1' => Some(1),
        '2' => Some(2),
        '3' => Some(3),
        '4' => Some(4),
        '5' => Some(5),
        '6' => Some(6),
        '7' => Some(7),
        '8' => Some(8),
        '9' => Some(9),
        _ => None,
    }
}

/// Reads a non-negative decimal number.
pub fn parse_number(text: &str) -> (number: Option<usize>)
    ensures
        number == number_of(text@),
{
    let end = text.unicode_len();
    let start: usize = if end > 0 && text.get_char(0) == '+' {
        1
    } else {
        0
    };
    let ghost digits = unsigned(text@);
    assert(digits =~= text@.skip(start as int));
    if start == end {
        return None;
    }
    let mut value: usize = 0;
    let mut i: usize = start;
    while i < end
        invariant
            start <= i <= end,
            end == text@.len(),
            digits == unsigned(text@),
            digits == text@.skip(start as int),
            all_digits(digits.take(i - start)),
            value == digits_value(digits.take(i - start)),
        decreases end - i,
    {
        let ghost done = digits.take(i - start);
        let ghost more = digits.take(i + 1 - start);
        assert(more.drop_last() =~= done);
        assert(more.last() == text@[i as int]);
        let d = match digit_value(text.get_char(i)) {
            Some(d) => d,
            None => {
                assert(digit_of(digits[i - start]).is_none());
                return None;
            },
        };
        proof {
            lemma_prefix_value(digits, i + 1 - start);
        }
        let shifted = match value.checked_mul(10) {
            Some(shifted) => shifted,
            None => return None,
        };
        value = match shifted.checked_add(d) {
            Some(sum) => sum,
            None => return None,
        };
        i += 1;
    }
    assert(digits.take(i - start) =~= digits);
    Some(value)
}

/// Every argument stands for a number.
pub open spec fn all_numbers(arguments: Seq<String>) -> bool {
    forall|i: int| 0 <= i < arguments.len() ==> number_of((#[trigger] arguments[i])@).is_some()
}

/// Reads the arguments of the program: six numbers, then the target.
pub fn parse_arguments(arguments: &Vec<String>) -> (parsed: Result<Puzzle, InputError>)
    ensures
        match parsed {
            Ok(puzzle) => {
                &&& arguments@.len() == 7
                &&& puzzle.numbers@.len() == 6
                &&& forall|i: int|
                    0 <= i < 6 ==> number_of((#[trigger] arguments@[i])@) == Some(
                        puzzle.numbers@[i],
                    )
                &&& number_of(arguments@[6]@) == Some(puzzle.target)
            },
            Err(InputError::Usage) => arguments@.len() != 7,
            Err(InputError::Malformed) => arguments@.len() == 7 && !all_numbers(arguments@),
        },
{
    if arguments.len() != 7 {
        return Err(InputError::Usage);
    }
    let mut numbers: Vec<usize> = Vec::with_capacity(6);
    let mut i: usize = 0;
    while i < 6
        invariant
            i <= 6,
            arguments@.len() == 7,
            numbers@.len() == i,
            forall|j: int|
                0 <= j < i ==> number_of((#[trigger] arguments@[j])@) == Some(numbers@[j]),
        decreases 6 - i,
    {
        match parse_number(arguments[i].as_str()) {
            Some(number) => numbers.push(number),
            None => return Err(InputError::Malformed),
        }
        i += 1;
    }
    match parse_number(arguments[6].as_str()) {
        Some(target) => Ok(Puzzle { numbers, target }),
        None => Err(InputError::Malformed),
    }
}

/// The decimal digits of a number are all digits, and spell the number.
proof fn lemma_decimal_value(n: nat)
    ensures
        decimal(n).len() > 0,
        all_digits(decimal(n)),
        digits_value(decimal(n)) == n,
    decreases n,
{
    if n < 10 {
        assert(decimal(n).drop_last() =~= Seq::empty());
        assert(digits_value(decimal(n).drop_last()) == 0);
        assert(digit_of(digit(n)) == Some(n));
    } else {
        lemma_decimal_value(n / 10);
        assert(decimal(n).drop_last() =~= decimal(n / 10));
        assert(digit_of(digit(n % 10)) == Some(n % 10));
    }
}

/// A number written in decimal digits is read back as the same number.
pub proof fn lemma_number_round_trip(n: usize)
    ensures
        number_of(decimal(n as nat)) == Some(n),
{
    lemma_decimal_value(n as nat);
    let text = decimal(n as nat);
    assert(digit_of(text[0]).is_some());
    assert(text[0] != '+');
}

} // verus!
