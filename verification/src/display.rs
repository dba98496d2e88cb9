//! The sections of the plain table, each appended to a text.
//!
//! The plain table leaves its carry rows unnumbered, shows the product right
//! under the column sums, and can check it against the product that the
//! machine computes.

use vstd::prelude::*;

use crate::breakdown::{break_down_addition, column_sums};
use crate::columns::{collapse, columns_value, lemma_columns_value_from, lemma_value_bound_fits};
use crate::decimal::{
    as_nats, decimal_digits, digit_at, digit_count, digits_of, lemma_decimal_digits,
    lemma_digit_at_beyond, lemma_product_bound, lemma_product_machine,
};
use crate::frame::{
    bottom_border_text, column_rows_text, grid_title_text, position_title_text, push_bottom_border,
    push_grid_title, push_position_title, push_thin_rule, push_top_border, thin_rule,
    top_border_text,
};
use crate::generate::{
    author_text, columns_cells, columns_row, generate_rows_with_numbers, multiplication_text,
    operations_text, operations_with_tags, product_cells, product_section, product_text,
    push_product,
};
use crate::layout::{grid_row, push_grid_row, Cell};
use crate::length::{frame_width, get_numbers_length};
use crate::product::{digits_by_place, lemma_collapse_is_product, lemma_column_sums_value};

verus! {

/// The legend of the plain table.
pub open spec fn symbols_text() -> Seq<char> {
    "\n"@ + "Symbols\n"@ + "=======\n"@ + "Pos. = Position.\n"@
        + "Ops. = Operations of the long multiplication.\n"@
        + "Sum. = Sum of each column of the multiplication.\n"@
        + "Pro. = Product of the multiplication.\n"@ + "^ = Carry-over.\n"@
        + "n R = The row number.\n"@ + "n C = The column number of the sum of the rows.\n"@
        + "* Replace 'n' for a number.\n"@ + "P = The product of multiplication.\n"@
        + "V = Validate the product of multiplication.\n"@ + "\n"@
}

/// The grid of the column sums, the product, and a thin line under it.
pub open spec fn long_sum_text(multiplicand: nat, multiplier: nat) -> Seq<char> {
    column_rows_text(column_sums(multiplicand, multiplier)) + product_text(
        multiplicand * multiplier,
        frame_width(multiplicand, multiplier),
    ) + thin_rule(frame_width(multiplicand, multiplier))
}

/// The row that shows the product of the two numbers as the machine
/// computes it: a digit in every column of the frame, as in the row of the
/// product.
pub open spec fn product_validation_text(multiplicand: nat, multiplier: nat) -> Seq<char> {
    grid_row(
        product_cells(multiplicand * multiplier, frame_width(multiplicand, multiplier)),
        " V"@,
    )
}

/// Appends the legend of the plain table.
pub fn symbols(text: &mut String)
    ensures
        final(text)@ == old(text)@ + symbols_text(),
{
    text.append("\n");
    text.append("Symbols\n");
    text.append("=======\n");
    text.append("Pos. = Position.\n");
    text.append("Ops. = Operations of the long multiplication.\n");
    text.append("Sum. = Sum of each column of the multiplication.\n");
    text.append("Pro. = Product of the multiplication.\n");
    text.append("^ = Carry-over.\n");
    text.append("n R = The row number.\n");
    text.append("n C = The column number of the sum of the rows.\n");
    text.append("* Replace 'n' for a number.\n");
    text.append("P = The product of multiplication.\n");
    text.append("V = Validate the product of multiplication.\n");
    text.append("\n");
}

/// Appends the line that opens the table.
pub fn top_border(multiplicand: usize, multiplier: usize, text: &mut String)
    ensures
        final(text)@ == old(text)@ + top_border_text(
            frame_width(multiplicand as nat, multiplier as nat),
        ),
{
    let length: usize = get_numbers_length(multiplicand, multiplier);
    push_top_border(text, length);
}

/// Appends the section that numbers the columns.
pub fn position_title(multiplicand: usize, multiplier: usize, text: &mut String)
    ensures
        final(text)@ == old(text)@ + position_title_text(
            frame_width(multiplicand as nat, multiplier as nat),
        ),
{
    let length: usize = get_numbers_length(multiplicand, multiplier);
    push_position_title(text, length);
}

/// Appends the title of the operations.
pub fn operation_title(multiplicand: usize, multiplier: usize, text: &mut String)
    ensures
        final(text)@ == old(text)@ + grid_title_text(
            "Ops."@,
            frame_width(multiplicand as nat, multiplier as nat),
        ),
{
    let length: usize = get_numbers_length(multiplicand, multiplier);
    push_grid_title(text, "Ops.", length);
}

/// Appends the section that shows the two numbers, one above the other.
pub fn multiplication(multiplicand: usize, multiplier: usize, text: &mut String)
    ensures
        final(text)@ == old(text)@ + multiplication_text(multiplicand as nat, multiplier as nat),
{
    crate::generate::multiplication(multiplicand, multiplier, text);
}

/// Appends the grid of the operations: for every digit of the multiplier a
/// row of carries and a numbered row of units.
pub fn operations(multiplicand: usize, multiplier: usize, text: &mut String)
    ensures
        final(text)@ == old(text)@ + operations_text(multiplicand as nat, multiplier as nat, false),
{
    operations_with_tags(multiplicand, multiplier, false, text);
}

/// Appends the title of the column sums.
pub fn sum_title(multiplicand: usize, multiplier: usize, text: &mut String)
    ensures
        final(text)@ == old(text)@ + grid_title_text(
            "Sum."@,
            frame_width(multiplicand as nat, multiplier as nat),
        ),
{
    let length: usize = get_numbers_length(multiplicand, multiplier);
    push_grid_title(text, "Sum.", length);
}

/// Appends the grid of the column sums and, under its title, the product:
/// the number that the column sums stand for, with a digit in every column of
/// the frame.
pub fn long_sum(multiplicand: usize, multiplier: usize, text: &mut String)
    ensures
        final(text)@ == old(text)@ + long_sum_text(multiplicand as nat, multiplier as nat),
{
    let ghost a = multiplicand as nat;
    let ghost b = multiplier as nat;
    let additions: Vec<usize> = break_down_addition(multiplicand, multiplier);
    let length: usize = get_numbers_length(multiplicand, multiplier);
    proof {
        lemma_column_sums_value(a, b);
        lemma_value_bound_fits(column_sums(a, b));
        lemma_product_bound(a, b);
        lemma_product_machine(a, b);
    }
    generate_rows_with_numbers(&additions, length, text);

    let sum: u128 = number_of_columns(&additions);
    let digits: Vec<usize> = digits_in_frame(sum, length);
    assert(as_nats(digits@).len() == digits@.len());
    push_product(text, &digits);
    push_thin_rule(text, length);
}

/// Appends the row that shows the product of the two numbers as the machine
/// computes it.
pub fn product_validation(multiplicand: usize, multiplier: usize, text: &mut String)
    ensures
        final(text)@ == old(text)@ + product_validation_text(
            multiplicand as nat,
            multiplier as nat,
        ),
{
    let length: usize = get_numbers_length(multiplicand, multiplier);
    proof {
        lemma_product_machine(multiplicand as nat, multiplier as nat);
        lemma_product_bound(multiplicand as nat, multiplier as nat);
    }
    let product: u128 = (multiplicand as u128) * (multiplier as u128);
    let digits: Vec<usize> = digits_in_frame(product, length);
    let cells: Vec<Cell> = columns_row(&digits);
    push_grid_row(text, &cells, " V");
}

/// Appends the line that closes the table.
pub fn bottom_border(multiplicand: usize, multiplier: usize, text: &mut String)
    ensures
        final(text)@ == old(text)@ + bottom_border_text(
            frame_width(multiplicand as nat, multiplier as nat),
        ),
{
    let length: usize = get_numbers_length(multiplicand, multiplier);
    push_bottom_border(text, length);
}

/// Appends the lines under the table that name its author.
pub fn author(text: &mut String)
    ensures
        final(text)@ == old(text)@ + author_text(),
{
    crate::generate::author(text);
}

/// The sum of every column of the long multiplication, the most significant
/// column first.
pub fn break_down_addition_of_multiplication(
    multiplicand: usize,
    multiplier: usize,
) -> (addition: Vec<usize>)
    ensures
        as_nats(addition@) == column_sums(multiplicand as nat, multiplier as nat).reverse(),
        addition@.len() == frame_width(multiplicand as nat, multiplier as nat),
{
    let columns: Vec<usize> = break_down_addition(multiplicand, multiplier);
    let length: usize = columns.len();
    let ghost target = as_nats(columns@).reverse();
    let mut addition: Vec<usize> = Vec::new();
    let mut index: usize = 0;
    while index < length
        invariant
            index <= length == columns@.len(),
            addition@.len() == index,
            target == as_nats(columns@).reverse(),
            forall|i: int| 0 <= i < index ==> #[trigger] addition@[i] == target[i],
        decreases length - index,
    {
        addition.push(columns[length - 1 - index]);
        index = index + 1;
    }
    addition
}

/// The number that the columns stand for.
fn number_of_columns(columns: &Vec<usize>) -> (number: u128)
    requires
        columns_value(as_nats(columns@)) <= u128::MAX,
    ensures
        number == columns_value(as_nats(columns@)),
{
    let ghost all = as_nats(columns@);
    let mut number: u128 = 0;
    let mut from: usize = columns.len();
    while from > 0
        invariant
            from <= columns@.len(),
            all == as_nats(columns@),
            columns_value(all) <= u128::MAX,
            number == columns_value(all.skip(from as int)),
        decreases from,
    {
        from = from - 1;
        proof {
            lemma_columns_value_from(all, from as int);
        }
        number = number * 10 + columns[from] as u128;
    }
    assert(all.skip(0) =~= all);
    number
}

/// The digits of `number` at the places below `width`, place 0 first.
fn digits_in_frame(number: u128, width: usize) -> (digits: Vec<usize>)
    requires
        digit_count(number as nat) <= width,
    ensures
        as_nats(digits@) == digits_by_place(number as nat, width as nat),
{
    let ghost n = number as nat;
    let written: Vec<usize> = digits_of(number);
    let size: usize = written.len();
    proof {
        lemma_decimal_digits(n);
    }
    let mut digits: Vec<usize> = Vec::new();
    let mut place: usize = 0;
    while place < width
        invariant
            place <= width,
            size == digit_count(n) <= width,
            written@.len() == size,
            as_nats(written@) == decimal_digits(n),
            digits@.len() == place,
            forall|i: int| 0 <= i < place ==> #[trigger] digits@[i] == digit_at(n, i as nat),
        decreases width - place,
    {
        if place < size {
            proof {
                lemma_decimal_digits(n);
                assert(as_nats(written@)[size - 1 - place] == digit_at(n, place as nat));
            }
            digits.push(written[size - 1 - place]);
        } else {
            proof {
                lemma_digit_at_beyond(n, place as nat);
            }
            digits.push(0);
        }
        place = place + 1;
    }
    digits
}

/// The row that checks the product holds the same cells as the row of the
/// product: what the machine computes is what carrying the column sums ends
/// with.
pub proof fn lemma_validation_shows_product(multiplicand: nat, multiplier: nat)
    ensures
        product_validation_text(multiplicand, multiplier) == grid_row(
            columns_cells(collapse(column_sums(multiplicand, multiplier))),
            " V"@,
        ),
        product_text(multiplicand * multiplier, frame_width(multiplicand, multiplier))
            == product_section(collapse(column_sums(multiplicand, multiplier))),
{
    lemma_collapse_is_product(multiplicand, multiplier);
}

} // verus!
