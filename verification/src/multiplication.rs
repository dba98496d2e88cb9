//! The whole table of a long multiplication as one text.

use vstd::prelude::*;

use crate::frame::{bottom_border_text, grid_title_text, position_title_text, top_border_text};
use crate::generate::{
    author, author_text, bottom_border, long_sum, long_sum_text, multiplication,
    multiplication_text, operation_title, operations, operations_text, position_title, sum_title,
    symbols, symbols_text, top_border,
};
use crate::length::{digits_value, frame_width, is_magnitude, parse_number};

verus! {

/// The full table of a long multiplication: the legend, the frame with the
/// positions, the two numbers, the operations, the column sums with every
/// pass of carrying and the product, and the lines that name the author.
pub open spec fn table_text(multiplicand: nat, multiplier: nat) -> Seq<char> {
    let width = frame_width(multiplicand, multiplier);
    symbols_text() + top_border_text(width) + position_title_text(width) + grid_title_text(
        "Ops."@,
        width,
    ) + multiplication_text(multiplicand, multiplier) + operations_text(
        multiplicand,
        multiplier,
        true,
    ) + grid_title_text("Sum."@, width) + long_sum_text(multiplicand, multiplier)
        + bottom_border_text(width) + author_text()
}

/// The full table of the long multiplication of two numbers written in
/// decimal digits.
///
/// Both texts have to be numbers that [`parse_number`] reads: runs of digits
/// that stand for numbers a `usize` can hold.
pub fn get_table(multiplicand: &String, multiplier: &String) -> (content: String)
    requires
        is_magnitude(multiplicand@),
        is_magnitude(multiplier@),
    ensures
        content@ == table_text(digits_value(multiplicand@), digits_value(multiplier@)),
{
    let first: usize = parse_number(multiplicand).unwrap();
    let second: usize = parse_number(multiplier).unwrap();
    let mut content: String = String::new();

    symbols(&mut content);
    top_border(multiplicand, multiplier, &mut content);
    position_title(multiplicand, multiplier, &mut content);
    operation_title(multiplicand, multiplier, &mut content);
    multiplication(first, second, &mut content);
    operations(first, second, &mut content);
    sum_title(first, second, &mut content);
    long_sum(first, second, &mut content);
    bottom_border(first, second, &mut content);
    author(&mut content);

    content
}

} // verus!
