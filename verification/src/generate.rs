//! The sections of the full table, each appended to a text.
//!
//! The full table numbers its carry rows and shows every pass of carrying as
//! a grid of its own, down to the product.

use vstd::prelude::*;
use vstd::seq_lib::lemma_concat_associative;

use crate::breakdown::{
    break_down_addition, break_down_multiplication, break_down_subtotal, carry_block, carry_digits,
    column_sums, has_decimals, lemma_block_in_reach, lemma_block_is_subrange,
    lemma_column_sum_bound, lemma_unit_and_carry, unit_block, unit_digits,
};
use crate::columns::{
    carried, columns_fit, columns_total, columns_value, is_single_digits, lemma_carried_after_pass,
    lemma_carried_keeps_value, lemma_carrying_keeps_value, lemma_columns_total_bound,
    lemma_single_digits_value, lemma_subtotal_pass_total, lemma_value_bound_fits, subtotal_pass,
};
use crate::decimal::{
    as_nats, decimal_digits, digit_count, digits_of, lemma_decimal_digits,
    lemma_digit_count_increases, lemma_digit_count_machine, lemma_digit_count_upper, pow10,
};
use crate::frame::{
    bottom_border_text, closing_rule, column_row, column_rows, column_rows_text, dotted_rule,
    grid_title_text, is_frame_width, numbered_tag, opening_rule, position_cells,
    position_title_text, push_bottom_border, push_closing_rule, push_dotted_rule, push_grid_title,
    push_numbered_row, push_opening_rule, push_position_title, push_thin_rule, push_top_border,
    thin_rule, top_border_text,
};
use crate::layout::{
    decimal_text, grid_row, lemma_decimal_text_len, lemma_grid_row_len, lemma_placed_row_len,
    lemma_title_row_len, placed_cells, placed_row, push_decimal, push_grid_row, push_repeated,
    push_rule, rule, title_row, Cell,
};
use crate::length::{
    digits_value, frame_width, get_number_length, get_numbers_length, get_strings_length,
    is_magnitude,
};
use crate::product::{digits_by_place, lemma_column_sums_commute, lemma_column_sums_value};

verus! {

/// The legend of the full table.
pub open spec fn symbols_text() -> Seq<char> {
    "\n"@ + "Symbols\n"@ + "=======\n"@ + "Pos. = Position.\n"@
        + "Ops. = Operations of the long multiplication.\n"@
        + "Sum. = Sum of each column of the multiplication.\n"@
        + "Sub n. = Subtotal of the last sum.\n"@ + "Pro. = Product of the multiplication.\n"@
        + "n ^ = Carry-over.\n"@ + "n R = The row number.\n"@
        + "n C = The column number of the sum of the rows.\n"@ + "* Replace 'n' for a number.\n"@
        + "P = The product of multiplication.\n"@ + "\n"@
}

/// The cells of the row that shows the multiplicand at the right of the
/// frame.
pub open spec fn multiplicand_cells(multiplicand: nat, multiplier: nat) -> Seq<Cell> {
    placed_cells(frame_width(multiplicand, multiplier), decimal_digits(multiplicand), 0)
}

/// The cells of the row that shows the multiplier at the right of the frame
/// and the multiplication sign in the cell before its first digit.
pub open spec fn multiplier_cells(multiplicand: nat, multiplier: nat) -> Seq<Cell> {
    placed_cells(frame_width(multiplicand, multiplier), decimal_digits(multiplier), 0).update(
        digit_count(multiplicand) - 1,
        Cell::Times,
    )
}

/// The section that shows the two numbers, one above the other.
pub open spec fn multiplication_text(multiplicand: nat, multiplier: nat) -> Seq<char> {
    grid_row(multiplicand_cells(multiplicand, multiplier), Seq::empty()) + grid_row(
        multiplier_cells(multiplicand, multiplier),
        Seq::empty(),
    ) + rule("┣"@, "━━━"@, "┿"@, "┫"@, frame_width(multiplicand, multiplier))
}

/// The tag of a carry row: its number and the carry mark in the full table,
/// the carry mark alone in the plain one.
pub open spec fn carry_tag(row: nat, numbered: bool) -> Seq<char> {
    if numbered {
        numbered_tag(row, "^"@)
    } else {
        " ^"@
    }
}

/// The rows of a block: its carries, and under a dotted line its units, one
/// column to the right of their carries. Block `k` leaves `k` columns free at
/// the right of its units.
pub open spec fn block_rows_text(
    width: nat,
    carries: Seq<nat>,
    units: Seq<nat>,
    k: nat,
    numbered: bool,
) -> Seq<char> {
    grid_row(placed_cells(width, carries, k + 1), carry_tag(k + 1, numbered)) + dotted_rule(width)
        + grid_row(placed_cells(width, units, k), numbered_tag(k + 1, "R"@))
}

/// The rows of block `k` of a long multiplication.
pub open spec fn operation_block_text(
    multiplicand: nat,
    multiplier: nat,
    k: nat,
    numbered: bool,
) -> Seq<char> {
    block_rows_text(
        frame_width(multiplicand, multiplier),
        carry_block(multiplicand, multiplier, k),
        unit_block(multiplicand, multiplier, k),
        k,
        numbered,
    )
}

/// The rows of the first `blocks` blocks, with a thin line between each two.
pub open spec fn operation_blocks_text(
    multiplicand: nat,
    multiplier: nat,
    blocks: nat,
    numbered: bool,
) -> Seq<char>
    decreases blocks,
{
    if blocks == 0 {
        Seq::empty()
    } else if blocks == 1 {
        operation_block_text(multiplicand, multiplier, 0, numbered)
    } else {
        operation_blocks_text(multiplicand, multiplier, (blocks - 1) as nat, numbered) + thin_rule(
            frame_width(multiplicand, multiplier),
        ) + operation_block_text(multiplicand, multiplier, (blocks - 1) as nat, numbered)
    }
}

/// The grid of the operations: one block of rows for every digit of the
/// multiplier, and the line that closes the section.
pub open spec fn operations_text(multiplicand: nat, multiplier: nat, numbered: bool) -> Seq<char> {
    operation_blocks_text(multiplicand, multiplier, digit_count(multiplier), numbered)
        + closing_rule(frame_width(multiplicand, multiplier))
}

/// The frame is wide enough for the title of pass `index`: the label, the
/// number of the pass and the dot fit between the borders.
pub open spec fn title_has_room(index: nat, width: nat) -> bool {
    digit_count(index) + 6 <= 4 * width
}

/// The title row of the grid that shows pass `index` of carrying: the label
/// with the number of the pass, and blanks up to the border.
pub open spec fn subtotal_title(index: nat, width: nat) -> Seq<char> {
    title_row(
        "Sub "@ + decimal_text(index) + "."@,
        (4 * width - 6 - digit_count(index)) as nat,
    )
}

/// How many passes of carrying are shown as grids of their own when the
/// columns stand at `columns`.
pub open spec fn passes_shown(columns: Seq<nat>) -> nat
    decreases columns_total(columns),
{
    if is_single_digits(columns) {
        0
    } else {
        proof {
            lemma_subtotal_pass_total(columns);
        }
        1 + passes_shown(subtotal_pass(columns))
    }
}

/// The grid that shows the columns after pass `index` of carrying: the line
/// that closes the grid above, the title, and a row for every column.
pub open spec fn subtotal_grid_text(columns: Seq<nat>, index: nat) -> Seq<char> {
    closing_rule(columns.len()) + subtotal_title(index, columns.len()) + opening_rule(
        columns.len(),
    ) + column_rows_text(columns)
}

/// The grids of the passes of carrying that are still to be shown when the
/// columns stand at `columns`: none if every column holds a single digit;
/// else a grid for `columns`, titled with `index`, and then those of the
/// columns after one more pass.
pub open spec fn subtotals_text(columns: Seq<nat>, index: nat) -> Seq<char>
    decreases columns_total(columns),
{
    if is_single_digits(columns) {
        Seq::empty()
    } else {
        proof {
            lemma_subtotal_pass_total(columns);
        }
        subtotal_grid_text(columns, index) + subtotals_text(subtotal_pass(columns), index + 1)
    }
}

/// The grids of the first `count` passes of carrying after `columns`: the
/// grid of pass `i` shows the columns after `i` passes and is titled with
/// `index + i`.
pub open spec fn pass_grids_text(columns: Seq<nat>, index: nat, count: nat) -> Seq<char>
    decreases count,
{
    if count == 0 {
        Seq::empty()
    } else {
        pass_grids_text(columns, index, (count - 1) as nat) + subtotal_grid_text(
            carried(columns, (count - 1) as nat),
            (index + count - 1) as nat,
        )
    }
}

/// The cells of a row that shows every column in its place: column 0 at the
/// right end.
pub open spec fn columns_cells(columns: Seq<nat>) -> Seq<Cell> {
    Seq::new(columns.len(), |p: int| Cell::Number(columns[columns.len() - 1 - p] as usize))
}

/// The cells of the row that shows the digits of `product`, one in every
/// column of the frame.
pub open spec fn product_cells(product: nat, width: nat) -> Seq<Cell> {
    columns_cells(digits_by_place(product, width))
}

/// The closing of the grids above, the title of the product, and a row that
/// shows `columns`, tagged `P`.
pub open spec fn product_section(columns: Seq<nat>) -> Seq<char> {
    closing_rule(columns.len()) + grid_title_text("Pro."@, columns.len()) + grid_row(
        columns_cells(columns),
        " P"@,
    )
}

/// The title of the product and the row of its digits.
pub open spec fn product_text(product: nat, width: nat) -> Seq<char> {
    product_section(digits_by_place(product, width))
}

/// The grid of the column sums, a grid for every pass of carrying that
/// leaves a column with more than a digit, and the product.
pub open spec fn long_sum_text(multiplicand: nat, multiplier: nat) -> Seq<char> {
    column_rows_text(column_sums(multiplicand, multiplier)) + subtotals_text(
        subtotal_pass(column_sums(multiplicand, multiplier)),
        1,
    ) + product_text(multiplicand * multiplier, frame_width(multiplicand, multiplier))
}

/// The lines under the table that name its author.
pub open spec fn author_text() -> Seq<char> {
    "\n"@ + "---\n"@ + "Author: Israel Roldan\n"@ + "E-mail: israel.alberto.rv@gmail.com\n"@
        + "License: GPL-3.0\n"@
        + "Project: https://github.com/airvzxf/long-multiplication-calculator\n"@
}

/// Appends the legend of the full table.
pub fn symbols(text: &mut String)
    ensures
        final(text)@ == old(text)@ + symbols_text(),
{
    text.append("\n");
    text.append("Symbols\n");
    text.append("=======\n");
    text.append("Pos. = Position.\n");
    text.append("Ops. = Operations of the long multiplication.\n");
    text.append("Sum. = Sum of each column of the multiplication.\n");
    text.append("Sub n. = Subtotal of the last sum.\n");
    text.append("Pro. = Product of the multiplication.\n");
    text.append("n ^ = Carry-over.\n");
    text.append("n R = The row number.\n");
    text.append("n C = The column number of the sum of the rows.\n");
    text.append("* Replace 'n' for a number.\n");
    text.append("P = The product of multiplication.\n");
    text.append("\n");
}

/// Appends the line that opens the table for two numbers written in decimal
/// digits, which have to be numbers that `parse_number` reads.
pub fn top_border(multiplicand: &String, multiplier: &String, text: &mut String)
    requires
        is_magnitude(multiplicand@),
        is_magnitude(multiplier@),
    ensures
        final(text)@ == old(text)@ + top_border_text(
            frame_width(digits_value(multiplicand@), digits_value(multiplier@)),
        ),
{
    let length: usize = get_strings_length(multiplicand, multiplier);
    push_top_border(text, length);
}

/// Appends the section that numbers the columns, for two numbers written in
/// decimal digits, which have to be numbers that `parse_number` reads.
pub fn position_title(multiplicand: &String, multiplier: &String, text: &mut String)
    requires
        is_magnitude(multiplicand@),
        is_magnitude(multiplier@),
    ensures
        final(text)@ == old(text)@ + position_title_text(
            frame_width(digits_value(multiplicand@), digits_value(multiplier@)),
        ),
{
    let length: usize = get_strings_length(multiplicand, multiplier);
    push_position_title(text, length);
}

/// Appends the title of the operations, for two numbers written in decimal
/// digits, which have to be numbers that `parse_number` reads.
pub fn operation_title(multiplicand: &String, multiplier: &String, text: &mut String)
    requires
        is_magnitude(multiplicand@),
        is_magnitude(multiplier@),
    ensures
        final(text)@ == old(text)@ + grid_title_text(
            "Ops."@,
            frame_width(digits_value(multiplicand@), digits_value(multiplier@)),
        ),
{
    let length: usize = get_strings_length(multiplicand, multiplier);
    push_grid_title(text, "Ops.", length);
}

/// Appends the section that shows the two numbers, one above the other.
pub fn multiplication(multiplicand: usize, multiplier: usize, text: &mut String)
    ensures
        final(text)@ == old(text)@ + multiplication_text(multiplicand as nat, multiplier as nat),
{
    let ghost start = text@;
    let multiplicand_len: usize = get_number_length(multiplicand);
    let length: usize = get_numbers_length(multiplicand, multiplier);
    proof {
        reveal_strlit("");
    }

    let first: Vec<Cell> = number_row(length, multiplicand);
    push_grid_row(text, &first, "");
    assert(text@ == start + grid_row(
        multiplicand_cells(multiplicand as nat, multiplier as nat),
        Seq::empty(),
    ));

    let mut second: Vec<Cell> = number_row(length, multiplier);
    second.set(multiplicand_len - 1, Cell::Times);
    push_grid_row(text, &second, "");

    push_rule(text, "┣", "━━━", "┿", "┫", length);
}

/// Appends the grid of the operations: for every digit of the multiplier a
/// numbered row of carries and a numbered row of units.
pub fn operations(multiplicand: usize, multiplier: usize, text: &mut String)
    ensures
        final(text)@ == old(text)@ + operations_text(multiplicand as nat, multiplier as nat, true),
{
    operations_with_tags(multiplicand, multiplier, true, text);
}

/// Appends the grid of the operations, with carry rows that are numbered or
/// not.
pub fn operations_with_tags(
    multiplicand: usize,
    multiplier: usize,
    numbered: bool,
    text: &mut String,
)
    ensures
        final(text)@ == old(text)@ + operations_text(
            multiplicand as nat,
            multiplier as nat,
            numbered,
        ),
{
    let ghost begin = text@;
    let ghost a = multiplicand as nat;
    let ghost b = multiplier as nat;
    let length: usize = get_numbers_length(multiplicand, multiplier);
    let max_group_rows: usize = get_number_length(multiplier);
    let (operation_unit, operation_carry) = break_down_multiplication(multiplicand, multiplier);
    let mut block: usize = 0;
    while block < max_group_rows
        invariant
            a == multiplicand as nat,
            b == multiplier as nat,
            length == frame_width(a, b),
            block <= max_group_rows == digit_count(b),
            as_nats(operation_unit@) == unit_digits(a, b),
            as_nats(operation_carry@) == carry_digits(a, b),
            text@ == begin + operation_blocks_text(a, b, block as nat, numbered),
        decreases max_group_rows - block,
    {
        if block > 0 {
            push_thin_rule(text, length);
        }
        push_operation_block(
            text,
            multiplicand,
            multiplier,
            &operation_carry,
            &operation_unit,
            block,
            numbered,
        );
        proof {
            if block > 0 {
                let done = operation_blocks_text(a, b, block as nat, numbered);
                let line = thin_rule(length as nat);
                let rows = operation_block_text(a, b, block as nat, numbered);
                assert(operation_blocks_text(a, b, (block + 1) as nat, numbered) == done + line
                    + rows);
                lemma_concat_associative(begin, done, line);
                lemma_concat_associative(begin, done + line, rows);
            }
        }
        block = block + 1;
    }
    push_closing_rule(text, length);
}

/// Appends the title of the column sums.
pub fn sum_title(multiplicand: usize, multiplier: usize, text: &mut String)
    ensures
        final(text)@ == old(text)@ + grid_title_text(
            "Sum."@,
            frame_width(multiplicand as nat, multiplier as nat),
        ),
{
    let length: usize = get_numbers_length(multiplicand, multiplier);
    push_grid_title(text, "Sum.", length);
}

/// Appends the grid of the column sums, then a grid for every pass of
/// carrying that leaves a column with more than a digit, numbered from 1,
/// and at last the product: the digits that carrying ends with.
pub fn long_sum(multiplicand: usize, multiplier: usize, text: &mut String)
    ensures
        final(text)@ == old(text)@ + long_sum_text(multiplicand as nat, multiplier as nat),
{
    let ghost begin = text@;
    let ghost a = multiplicand as nat;
    let ghost b = multiplier as nat;
    let ghost sums = column_sums(a, b);
    let additions: Vec<usize> = break_down_addition(multiplicand, multiplier);
    let length: usize = get_numbers_length(multiplicand, multiplier);
    proof {
        lemma_column_sums_value(a, b);
        lemma_value_bound_fits(sums);
    }
    generate_rows_with_numbers(&additions, length, text);

    let sub_addition: Vec<usize> = break_down_subtotal(&additions);
    proof {
        lemma_carrying_keeps_value(sums);
        lemma_subtotal_pass_total(sums);
        lemma_column_sums_total(a, b);
        lemma_digit_count_increases(columns_total(subtotal_pass(sums)), columns_total(sums));
    }
    let digits: Vec<usize> = push_subtotals(text, sub_addition);
    proof {
        lemma_single_digits_value(as_nats(digits@));
        assert(as_nats(digits@) =~= digits_by_place(a * b, length as nat));
    }
    push_product(text, &digits);
    proof {
        let rows = column_rows_text(sums);
        let grids = subtotals_text(subtotal_pass(sums), 1);
        let product = product_text(a * b, length as nat);
        lemma_concat_associative(begin, rows, grids);
        lemma_concat_associative(begin, rows + grids, product);
    }
}

/// Appends one row for every column value, with a dotted line between each
/// two rows. Row `r` shows the digits of `numbers[r]`, the last of them in
/// column `r` of the frame, and is tagged with its number and `C`.
///
/// There has to be one number for every column of the frame, and none with
/// more digits than there are columns from its own column upwards.
pub fn generate_rows_with_numbers(numbers: &Vec<usize>, length: usize, text: &mut String)
    requires
        numbers@.len() == length,
        columns_fit(as_nats(numbers@)),
    ensures
        final(text)@ == old(text)@ + column_rows_text(as_nats(numbers@)),
{
    let ghost begin = text@;
    let ghost columns = as_nats(numbers@);
    let mut iteration: usize = 0;
    while iteration < length
        invariant
            iteration <= length == numbers@.len(),
            columns == as_nats(numbers@),
            columns_fit(columns),
            text@ == begin + column_rows(columns, iteration as nat),
        decreases length - iteration,
    {
        if iteration > 0 {
            push_dotted_rule(text, length);
        }
        assert(digit_count(columns[iteration as int]) + iteration <= length);
        push_column_row(text, length, numbers[iteration], iteration);
        proof {
            if iteration > 0 {
                let done = column_rows(columns, iteration as nat);
                let line = dotted_rule(length as nat);
                let row = column_row(columns, iteration as int);
                assert(column_rows(columns, (iteration + 1) as nat) == done + line + row);
                lemma_concat_associative(begin, done, line);
                lemma_concat_associative(begin, done + line, row);
            }
        }
        iteration = iteration + 1;
    }
}

/// Appends the title of the product and the row that shows `columns`, column
/// 0 at the right end. The columns have to make up a frame.
pub fn push_product(text: &mut String, columns: &Vec<usize>)
    requires
        is_frame_width(columns@.len()),
    ensures
        final(text)@ == old(text)@ + product_section(as_nats(columns@)),
{
    let length: usize = columns.len();
    push_closing_rule(text, length);
    push_grid_title(text, "Pro.", length);
    let cells: Vec<Cell> = columns_row(columns);
    push_grid_row(text, &cells, " P");
}

/// The cells of a row that shows every column in its place: column 0 at the
/// right end.
pub fn columns_row(columns: &Vec<usize>) -> (cells: Vec<Cell>)
    ensures
        cells@ == columns_cells(as_nats(columns@)),
{
    let ghost target = columns_cells(as_nats(columns@));
    let length: usize = columns.len();
    let mut cells: Vec<Cell> = Vec::new();
    let mut p: usize = 0;
    while p < length
        invariant
            p <= length == columns@.len(),
            cells@.len() == p,
            target == columns_cells(as_nats(columns@)),
            forall|q: int| 0 <= q < p ==> #[trigger] cells@[q] == target[q],
        decreases length - p,
    {
        cells.push(Cell::Number(columns[length - 1 - p]));
        p = p + 1;
    }
    assert(cells@ =~= target);
    cells
}

/// Appends the line that closes the table.
pub fn bottom_border(multiplicand: usize, multiplier: usize, text: &mut String)
    ensures
        final(text)@ == old(text)@ + bottom_border_text(
            frame_width(multiplicand as nat, multiplier as nat),
        ),
{
    let length: usize = get_numbers_length(multiplicand, multiplier);
    push_bottom_border(text, length);
}

/// Appends the lines under the table that name its author.
pub fn author(text: &mut String)
    ensures
        final(text)@ == old(text)@ + author_text(),
{
    text.append("\n");
    text.append("---\n");
    text.append("Author: Israel Roldan\n");
    text.append("E-mail: israel.alberto.rv@gmail.com\n");
    text.append("License: GPL-3.0\n");
    text.append("Project: https://github.com/airvzxf/long-multiplication-calculator\n");
}

/// A row of `width` cells that shows `number` at its right end.
fn number_row(width: usize, number: usize) -> (cells: Vec<Cell>)
    requires
        digit_count(number as nat) <= width,
    ensures
        cells@ == placed_cells(width as nat, decimal_digits(number as nat), 0),
{
    let digits: Vec<usize> = digits_of(number as u128);
    let size: usize = digits.len();
    proof {
        lemma_decimal_digits(number as nat);
    }
    placed_row(width, &digits, 0, size, 0)
}

/// Appends the rows of block `block`, whose carries and units are the `step`
/// entries from index `start` on.
fn push_block_rows(
    text: &mut String,
    width: usize,
    operation_carry: &Vec<usize>,
    operation_unit: &Vec<usize>,
    start: usize,
    step: usize,
    block: usize,
    numbered: bool,
)
    requires
        start + step <= operation_carry@.len(),
        start + step <= operation_unit@.len(),
        step + block + 1 <= width,
    ensures
        final(text)@ == old(text)@ + block_rows_text(
            width as nat,
            as_nats(operation_carry@).subrange(start as int, start + step),
            as_nats(operation_unit@).subrange(start as int, start + step),
            block as nat,
            numbered,
        ),
{
    let ghost begin = text@;
    let carries: Vec<Cell> = placed_row(width, operation_carry, start, step, block + 1);
    if numbered {
        push_numbered_row(text, &carries, block + 1, "^");
    } else {
        push_grid_row(text, &carries, " ^");
    }
    push_dotted_rule(text, width);
    let units: Vec<Cell> = placed_row(width, operation_unit, start, step, block);
    push_numbered_row(text, &units, block + 1, "R");
    proof {
        let carry_row = grid_row(carries@, carry_tag((block + 1) as nat, numbered));
        let line = dotted_rule(width as nat);
        let unit_row = grid_row(units@, numbered_tag((block + 1) as nat, "R"@));
        lemma_concat_associative(begin, carry_row, line);
        lemma_concat_associative(begin, carry_row + line, unit_row);
    }
}

/// Appends the rows of block `block` of a long multiplication, given all its
/// units and carries.
fn push_operation_block(
    text: &mut String,
    multiplicand: usize,
    multiplier: usize,
    operation_carry: &Vec<usize>,
    operation_unit: &Vec<usize>,
    block: usize,
    numbered: bool,
)
    requires
        block < digit_count(multiplier as nat),
        as_nats(operation_unit@) == unit_digits(multiplicand as nat, multiplier as nat),
        as_nats(operation_carry@) == carry_digits(multiplicand as nat, multiplier as nat),
    ensures
        final(text)@ == old(text)@ + operation_block_text(
            multiplicand as nat,
            multiplier as nat,
            block as nat,
            numbered,
        ),
{
    let ghost a = multiplicand as nat;
    let ghost b = multiplier as nat;
    let step: usize = get_number_length(multiplicand);
    let length: usize = get_numbers_length(multiplicand, multiplier);
    proof {
        lemma_block_in_reach(a, b, block as nat);
        lemma_block_is_subrange(a, b, digit_count(b), block as nat);
    }
    let start: usize = block * step;
    push_block_rows(text, length, operation_carry, operation_unit, start, step, block, numbered);
}

/// Appends the row that shows `value` from column `r` of the frame upwards.
fn push_column_row(text: &mut String, width: usize, value: usize, r: usize)
    requires
        digit_count(value as nat) + r <= width,
    ensures
        final(text)@ == old(text)@ + grid_row(
            placed_cells(width as nat, decimal_digits(value as nat), r as nat),
            numbered_tag((r + 1) as nat, "C"@),
        ),
{
    let digits: Vec<usize> = digits_of(value as u128);
    let size: usize = digits.len();
    proof {
        lemma_decimal_digits(value as nat);
        assert(as_nats(digits@).subrange(0, size as int) =~= decimal_digits(value as nat));
    }
    let cells: Vec<Cell> = placed_row(width, &digits, 0, size, r);
    push_numbered_row(text, &cells, r + 1, "C");
}

/// Appends the title row of the grid that shows pass `index` of carrying.
fn push_subtotal_title(text: &mut String, index: usize, width: usize)
    requires
        is_frame_width(width as nat),
        title_has_room(index as nat, width as nat),
    ensures
        final(text)@ == old(text)@ + subtotal_title(index as nat, width as nat),
{
    let digits: usize = get_number_length(index);
    text.append("┃");
    text.append("Sub ");
    push_decimal(text, index);
    text.append(".");
    push_repeated(text, " ", 4 * width - 6 - digits);
    text.append("┃\n");
}

/// Appends the grid that shows the columns after pass `index` of carrying.
fn push_subtotal_grid(text: &mut String, columns: &Vec<usize>, index: usize)
    requires
        is_frame_width(columns@.len()),
        title_has_room(index as nat, columns@.len()),
        columns_fit(as_nats(columns@)),
    ensures
        final(text)@ == old(text)@ + subtotal_grid_text(as_nats(columns@), index as nat),
{
    let length: usize = columns.len();
    push_closing_rule(text, length);
    push_subtotal_title(text, index, length);
    push_opening_rule(text, length);
    generate_rows_with_numbers(columns, length, text);
}

/// Appends a grid for every pass of carrying that leaves a column with more
/// than a digit, starting with the columns as they stand in `columns`, and
/// gives the columns that carrying ends with.
fn push_subtotals(text: &mut String, columns: Vec<usize>) -> (digits: Vec<usize>)
    requires
        is_frame_width(columns@.len()),
        columns_value(as_nats(columns@)) < pow10(columns@.len()),
        columns_total(as_nats(columns@)) < usize::MAX,
        title_has_room(columns_total(as_nats(columns@)), columns@.len()),
    ensures
        final(text)@ == old(text)@ + subtotals_text(as_nats(columns@), 1),
        digits@.len() == columns@.len(),
        is_single_digits(as_nats(digits@)),
        columns_value(as_nats(digits@)) == columns_value(as_nats(columns@)),
{
    let ghost begin = text@;
    let ghost first = as_nats(columns@);
    let length: usize = columns.len();
    let mut sub_addition: Vec<usize> = columns;
    let mut sub_index: usize = 0;
    loop
        invariant
            is_frame_width(length as nat),
            sub_addition@.len() == length == first.len(),
            columns_value(as_nats(sub_addition@)) == columns_value(first) < pow10(length as nat),
            sub_index + columns_total(as_nats(sub_addition@)) <= columns_total(first) < usize::MAX,
            title_has_room(columns_total(first), length as nat),
            text@ + subtotals_text(as_nats(sub_addition@), (sub_index + 1) as nat) == begin
                + subtotals_text(first, 1),
        ensures
            sub_addition@.len() == length,
            is_single_digits(as_nats(sub_addition@)),
            columns_value(as_nats(sub_addition@)) == columns_value(first),
            text@ == begin + subtotals_text(first, 1),
        decreases columns_total(as_nats(sub_addition@)),
    {
        let ghost current = as_nats(sub_addition@);
        let ghost before = text@;
        if !has_decimals(&sub_addition) {
            break;
        }
        proof {
            lemma_value_bound_fits(current);
            lemma_carrying_keeps_value(current);
            lemma_subtotal_pass_total(current);
            lemma_digit_count_increases((sub_index + 1) as nat, columns_total(first));
        }
        sub_index = sub_index + 1;
        push_subtotal_grid(text, &sub_addition, sub_index);
        sub_addition = break_down_subtotal(&sub_addition);
        proof {
            let grid = subtotal_grid_text(current, sub_index as nat);
            let rest = subtotals_text(subtotal_pass(current), (sub_index + 1) as nat);
            assert(subtotals_text(current, sub_index as nat) == grid + rest);
            lemma_concat_associative(before, grid, rest);
        }
    }
    sub_addition
}

/// The grid of the column sums, the grids of the passes of carrying and the
/// product are the same, whichever of the two numbers is the multiplier.
pub proof fn lemma_long_sum_commutes(multiplicand: nat, multiplier: nat)
    ensures
        long_sum_text(multiplicand, multiplier) == long_sum_text(multiplier, multiplicand),
{
    lemma_column_sums_commute(multiplicand, multiplier);
    assert(multiplicand * multiplier == multiplier * multiplicand) by (nonlinear_arith);
}

/// The title row of a pass is as wide as the frame, whatever the number of
/// the pass, as long as the frame has room for it.
pub proof fn lemma_subtotal_title_len(index: nat, width: nat)
    requires
        title_has_room(index, width),
    ensures
        subtotal_title(index, width).len() == 4 * width + 2,
{
    reveal_strlit("Sub ");
    reveal_strlit(".");
    lemma_decimal_text_len(index);
    lemma_title_row_len(
        "Sub "@ + decimal_text(index) + "."@,
        (4 * width - 6 - digit_count(index)) as nat,
    );
}

/// Every pass that is shown lowers the plain sum of the columns, so there
/// are no more passes than that sum.
pub proof fn lemma_passes_shown_bound(columns: Seq<nat>)
    ensures
        passes_shown(columns) <= columns_total(columns),
    decreases columns_total(columns),
{
    if !is_single_digits(columns) {
        lemma_subtotal_pass_total(columns);
        lemma_passes_shown_bound(subtotal_pass(columns));
    }
}

/// The grids of `count` passes are the grid of the first pass and then the
/// grids of the `count - 1` passes after it.
proof fn lemma_pass_grids_first(columns: Seq<nat>, index: nat, count: nat)
    requires
        count >= 1,
    ensures
        pass_grids_text(columns, index, count) == subtotal_grid_text(columns, index)
            + pass_grids_text(subtotal_pass(columns), index + 1, (count - 1) as nat),
    decreases count,
{
    let first = subtotal_grid_text(columns, index);
    if count == 1 {
        assert(pass_grids_text(columns, index, 0) == Seq::<char>::empty());
        assert(pass_grids_text(subtotal_pass(columns), index + 1, 0) == Seq::<char>::empty());
        assert(Seq::<char>::empty() + first =~= first + Seq::<char>::empty());
    } else {
        lemma_pass_grids_first(columns, index, (count - 1) as nat);
        lemma_carried_after_pass(columns, (count - 2) as nat);
        let middle = pass_grids_text(subtotal_pass(columns), index + 1, (count - 2) as nat);
        let last = subtotal_grid_text(
            carried(columns, (count - 1) as nat),
            (index + count - 1) as nat,
        );
        lemma_concat_associative(first, middle, last);
    }
}

/// The grids that are shown after the column sums are the grids of the
/// passes of carrying, one after the other and numbered in turn, as many as
/// leave a column with more than a digit.
pub proof fn lemma_subtotals_are_passes(columns: Seq<nat>, index: nat)
    ensures
        subtotals_text(columns, index) == pass_grids_text(columns, index, passes_shown(columns)),
    decreases columns_total(columns),
{
    if !is_single_digits(columns) {
        lemma_subtotal_pass_total(columns);
        lemma_subtotals_are_passes(subtotal_pass(columns), index + 1);
        lemma_pass_grids_first(columns, index, passes_shown(columns));
    }
}

/// Every grid of a pass of carrying over the column sums of two machine
/// numbers is as wide as the frame: its title row, whatever the number of the
/// pass, and every row of column values, which has one cell for each
/// column.
pub proof fn lemma_pass_grids_span_frame(
    multiplicand: nat,
    multiplier: nat,
    pass: nat,
    column: int,
)
    requires
        multiplicand <= usize::MAX,
        multiplier <= usize::MAX,
        pass < passes_shown(subtotal_pass(column_sums(multiplicand, multiplier))),
        0 <= column < frame_width(multiplicand, multiplier),
    ensures
        ({
            let width = frame_width(multiplicand, multiplier);
            let columns = carried(subtotal_pass(column_sums(multiplicand, multiplier)), pass);
            let cells = placed_cells(width, decimal_digits(columns[column]), column as nat);
            let tag = numbered_tag((column + 1) as nat, "C"@);
            &&& columns.len() == width
            &&& columns_fit(columns)
            &&& subtotal_title(pass + 1, width).len() == 4 * width + 2
            &&& cells.len() == width
            &&& grid_row(cells, tag).len() == 4 * width + 2 + tag.len()
        }),
{
    let width = frame_width(multiplicand, multiplier);
    let sums = column_sums(multiplicand, multiplier);
    let first = subtotal_pass(sums);
    let columns = carried(first, pass);
    lemma_digit_count_machine(multiplicand);
    lemma_digit_count_machine(multiplier);
    lemma_column_sums_value(multiplicand, multiplier);
    lemma_carrying_keeps_value(sums);
    lemma_carried_keeps_value(first, pass);

    lemma_column_sums_total(multiplicand, multiplier);
    lemma_subtotal_pass_total(sums);
    lemma_passes_shown_bound(first);
    lemma_digit_count_increases(pass + 1, columns_total(sums));
    lemma_subtotal_title_len(pass + 1, width);

    lemma_decimal_digits(columns[column]);
    lemma_placed_row_len(
        width,
        decimal_digits(columns[column]),
        column as nat,
        numbered_tag((column + 1) as nat, "C"@),
    );
}

/// Every row of the grid has one cell for each column of the frame: the row
/// of the positions, the rows of the two numbers, the rows of carries and of
/// units of every block, the row of every column sum, and the row of the
/// product. Each such row is four characters wide for every column, with the
/// opening border before them, and its tag and the end of the line after
/// them. The rows of the passes of carrying are the matter of
/// `lemma_pass_grids_span_frame`, the borders, rules and titles that of
/// `lemma_frame_lines_span_frame`.
pub proof fn lemma_rows_span_frame(multiplicand: nat, multiplier: nat, block: nat, column: int)
    requires
        multiplicand <= usize::MAX,
        multiplier <= usize::MAX,
        block < digit_count(multiplier),
        0 <= column < frame_width(multiplicand, multiplier),
    ensures
        ({
            let width = frame_width(multiplicand, multiplier);
            let positions = position_cells(width);
            let first = multiplicand_cells(multiplicand, multiplier);
            let second = multiplier_cells(multiplicand, multiplier);
            let carries = placed_cells(
                width,
                carry_block(multiplicand, multiplier, block),
                block + 1,
            );
            let units = placed_cells(width, unit_block(multiplicand, multiplier, block), block);
            let sum = placed_cells(
                width,
                decimal_digits(column_sums(multiplicand, multiplier)[column]),
                column as nat,
            );
            let product = product_cells(multiplicand * multiplier, width);
            &&& positions.len() == width
            &&& first.len() == width
            &&& second.len() == width
            &&& carries.len() == width
            &&& units.len() == width
            &&& sum.len() == width
            &&& product.len() == width
            &&& grid_row(positions, Seq::empty()).len() == 4 * width + 2
            &&& grid_row(first, Seq::empty()).len() == 4 * width + 2
            &&& grid_row(second, Seq::empty()).len() == 4 * width + 2
            &&& grid_row(carries, carry_tag(block + 1, true)).len() == 4 * width + 2 + carry_tag(
                block + 1,
                true,
            ).len()
            &&& grid_row(units, numbered_tag(block + 1, "R"@)).len() == 4 * width + 2
                + numbered_tag(block + 1, "R"@).len()
            &&& grid_row(sum, numbered_tag((column + 1) as nat, "C"@)).len() == 4 * width + 2
                + numbered_tag((column + 1) as nat, "C"@).len()
            &&& grid_row(product, " P"@).len() == 4 * width + 2 + " P"@.len()
        }),
{
    let a = multiplicand;
    let b = multiplier;
    let width = frame_width(a, b);
    let empty = Seq::<char>::empty();
    lemma_digit_count_machine(a);
    lemma_digit_count_machine(b);

    lemma_grid_row_len(position_cells(width), empty);

    lemma_decimal_digits(a);
    lemma_placed_row_len(width, decimal_digits(a), 0, empty);
    lemma_decimal_digits(b);
    lemma_placed_row_len(width, decimal_digits(b), 0, empty);
    lemma_grid_row_len(multiplier_cells(a, b), empty);

    let carries = carry_block(a, b, block);
    assert forall|j: int| 0 <= j < carries.len() implies #[trigger] carries[j] <= 9 by {
        lemma_unit_and_carry(a, b, (digit_count(a) - 1 - j) as nat, block);
    }
    lemma_placed_row_len(width, carries, block + 1, carry_tag(block + 1, true));
    lemma_placed_row_len(width, unit_block(a, b, block), block, numbered_tag(block + 1, "R"@));

    let value = column_sums(a, b)[column];
    lemma_decimal_digits(value);
    lemma_placed_row_len(
        width,
        decimal_digits(value),
        column as nat,
        numbered_tag((column + 1) as nat, "C"@),
    );

    lemma_grid_row_len(product_cells(a * b, width), " P"@);
}

/// The column sums of two machine numbers are small: they add up to less
/// than any machine number can count, and to a number that the title of a
/// pass has room for.
pub proof fn lemma_column_sums_total(multiplicand: nat, multiplier: nat)
    requires
        multiplicand <= usize::MAX,
        multiplier <= usize::MAX,
    ensures
        columns_total(column_sums(multiplicand, multiplier)) <= 13600,
        title_has_room(
            columns_total(column_sums(multiplicand, multiplier)),
            frame_width(multiplicand, multiplier),
        ),
{
    let sums = column_sums(multiplicand, multiplier);
    let blocks = digit_count(multiplier);
    let width = frame_width(multiplicand, multiplier);
    lemma_digit_count_machine(multiplicand);
    lemma_digit_count_machine(multiplier);
    assert forall|i: int| 0 <= i < sums.len() implies #[trigger] sums[i] <= 17 * blocks by {
        lemma_column_sum_bound(multiplicand, multiplier, i as nat, blocks);
    }
    lemma_columns_total_bound(sums, 17 * blocks);
    let total = columns_total(sums);
    assert(total <= 13600 && (width == 2 ==> total <= 34)) by (nonlinear_arith)
        requires
            total <= (17 * blocks) * width,
            1 <= blocks <= 20,
            blocks < width <= 40,
    ;
    if width == 2 {
        assert(pow10(2) == 100) by {
            reveal_with_fuel(pow10, 3);
        }
        lemma_digit_count_upper(total, 2);
    } else {
        assert(pow10(5) == 100000) by {
            reveal_with_fuel(pow10, 6);
        }
        lemma_digit_count_upper(total, 5);
    }
}

} // verus!
