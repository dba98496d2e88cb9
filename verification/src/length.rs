//! The width of a number and of the frame that two numbers span, and the
//! reading of numbers that are written in decimal digits.

use vstd::prelude::*;

use crate::decimal::{digit_count, lemma_digit_count_machine};

verus! {

/// The number of columns of the frame for two numbers: one for every digit
/// of the multiplicand and one for every digit of the multiplier.
pub open spec fn frame_width(multiplicand: nat, multiplier: nat) -> nat {
    digit_count(multiplicand) + digit_count(multiplier)
}

/// `text` is a run of decimal digits, at least one.
pub open spec fn is_digits(text: Seq<char>) -> bool {
    text.len() > 0 && forall|i: int| 0 <= i < text.len() ==> '0' <= #[trigger] text[i] <= '9'
}

/// The number that a run of decimal digits stands for.
pub open spec fn digits_value(text: Seq<char>) -> nat
    decreases text.len(),
{
    if text.len() == 0 {
        0
    } else {
        10 * digits_value(text.drop_last()) + (text.last() as nat - '0' as nat) as nat
    }
}

/// `text` is a run of decimal digits that stands for a number a `usize` can
/// hold.
pub open spec fn is_magnitude(text: Seq<char>) -> bool {
    is_digits(text) && digits_value(text) <= usize::MAX
}

/// The number of decimal digits of `number`; zero counts as one digit.
pub fn get_number_length(number: usize) -> (length: usize)
    ensures
        length == digit_count(number as nat),
        1 <= length <= 20,
{
    proof {
        lemma_digit_count_machine(number as nat);
    }
    let mut rest: usize = number;
    let mut length: usize = 1;
    while rest >= 10
        invariant
            1 <= length,
            length + digit_count(rest as nat) == 1 + digit_count(number as nat),
            digit_count(number as nat) <= 20,
        decreases rest,
    {
        rest = rest / 10;
        length = length + 1;
    }
    length
}

/// The number of columns of the frame: the digits of both numbers together.
pub fn get_numbers_length(number_a: usize, number_b: usize) -> (length: usize)
    ensures
        length == frame_width(number_a as nat, number_b as nat),
        2 <= length <= 40,
{
    let number_a_len: usize = get_number_length(number_a);
    let number_b_len: usize = get_number_length(number_b);
    number_a_len + number_b_len
}

/// Reads a number written in decimal digits.
///
/// Gives the number if `text` is a run of digits, at least one, and the
/// number fits a `usize`; gives `None` for any other text.
pub fn parse_number(text: &String) -> (number: Option<usize>)
    ensures
        number is Some <==> is_magnitude(text@),
        number is Some ==> number.unwrap() == digits_value(text@),
{
    let characters: &str = text.as_str();
    if characters.is_empty() {
        return None;
    }
    let mut value: usize = 0;
    for character in iter: characters.chars()
        invariant
            iter.seq() == text@,
            value == digits_value(text@.take(iter.index())),
            forall|i: int| 0 <= i < iter.index() ==> '0' <= #[trigger] text@[i] <= '9',
    {
        if character < '0' || character > '9' {
            return None;
        }
        let digit: usize = (character as u8 - '0' as u8) as usize;
        proof {
            let before = text@.take(iter.index());
            let now = text@.take(iter.index() + 1);
            assert(now.drop_last() =~= before);
            assert(now.last() == character);
            lemma_digits_value_grows(text@, iter.index() + 1);
        }
        if value > (usize::MAX - digit) / 10 {
            return None;
        }
        value = 10 * value + digit;
    }
    assert(text@.take(text@.len() as int) =~= text@);
    Some(value)
}

/// The number of columns of the frame for two numbers written in decimal
/// digits: the digits of both numbers together, not counting leading zeros.
///
/// Both texts have to be numbers that [`parse_number`] reads.
pub fn get_strings_length(multiplicand: &String, multiplier: &String) -> (length: usize)
    requires
        is_magnitude(multiplicand@),
        is_magnitude(multiplier@),
    ensures
        length == frame_width(digits_value(multiplicand@), digits_value(multiplier@)),
        2 <= length <= 40,
{
    let number_a: usize = parse_number(multiplicand).unwrap();
    let number_b: usize = parse_number(multiplier).unwrap();
    get_numbers_length(number_a, number_b)
}

/// The value of a run of digits is at least the value of any of its
/// beginnings.
pub proof fn lemma_digits_value_grows(text: Seq<char>, len: int)
    requires
        0 <= len <= text.len(),
    ensures
        digits_value(text.take(len)) <= digits_value(text),
    decreases text.len(),
{
    if len == text.len() {
        assert(text.take(len) =~= text);
    } else {
        assert(text.drop_last().take(len) =~= text.take(len));
        lemma_digits_value_grows(text.drop_last(), len);
    }
}

} // verus!
