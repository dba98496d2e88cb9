//! The sections of a table that depend on nothing but the width of the
//! frame, and the rows that show a sequence of column values.

use vstd::prelude::*;

use crate::decimal::decimal_digits;
use crate::layout::{
    decimal_text, grid_row, lemma_grid_row_len, lemma_repeated_len, lemma_rule_len,
    lemma_title_row_len, placed_cells, push_cells, push_decimal, push_grid_row, push_repeated,
    push_rule, push_title, repeated, rule, title_row, Cell,
};

verus! {

/// A frame has a column for each digit of two numbers, so two columns at
/// least, and few enough for the machine to count its characters.
pub open spec fn is_frame_width(width: nat) -> bool {
    2 <= width && 4 * width <= usize::MAX
}

/// The line that opens the table.
pub open spec fn top_border_text(width: nat) -> Seq<char> {
    "┏"@ + repeated("━"@, (4 * width - 1) as nat) + "┓"@ + "\n"@
}

/// The line that closes the table.
pub open spec fn bottom_border_text(width: nat) -> Seq<char> {
    rule("┗"@, "━━━"@, "┷"@, "┛"@, width)
}

/// The line that closes a section.
pub open spec fn closing_rule(width: nat) -> Seq<char> {
    rule("┣"@, "━━━"@, "┷"@, "┫"@, width)
}

/// The line that opens a grid under a title.
pub open spec fn opening_rule(width: nat) -> Seq<char> {
    rule("┣"@, "━━━"@, "┯"@, "┫"@, width)
}

/// The line between two rows that belong together.
pub open spec fn dotted_rule(width: nat) -> Seq<char> {
    rule("┠"@, "┈┈┈"@, "┼"@, "┨"@, width)
}

/// The line between two blocks of a grid.
pub open spec fn thin_rule(width: nat) -> Seq<char> {
    rule("┠"@, "───"@, "┼"@, "┨"@, width)
}

/// The title row of a section: the label, and blanks up to the border.
pub open spec fn section_title(label: Seq<char>, width: nat) -> Seq<char> {
    title_row(label, (4 * width - 5) as nat)
}

/// The cells that number the columns, counting down to 1 at the right.
pub open spec fn position_cells(width: nat) -> Seq<Cell> {
    Seq::new(width, |p: int| Cell::Number((width - p) as usize))
}

/// The section that numbers the columns.
pub open spec fn position_title_text(width: nat) -> Seq<char> {
    section_title("Pos."@, width) + rule("┠"@, "┄┄┄"@, "┬"@, "┨"@, width) + grid_row(
        position_cells(width),
        Seq::empty(),
    ) + closing_rule(width)
}

/// The title of a grid: its title row and the line that opens the grid.
pub open spec fn grid_title_text(label: Seq<char>, width: nat) -> Seq<char> {
    section_title(label, width) + opening_rule(width)
}

/// The tag of a numbered row: a blank, the number, a blank and the mark.
pub open spec fn numbered_tag(number: nat, mark: Seq<char>) -> Seq<char> {
    " "@ + decimal_text(number) + " "@ + mark
}

/// Row `r` of the rows that show column values: the digits of column `r`, the
/// last of them in column `r` of the frame.
pub open spec fn column_row(columns: Seq<nat>, r: int) -> Seq<char> {
    grid_row(
        placed_cells(columns.len(), decimal_digits(columns[r]), r as nat),
        numbered_tag((r + 1) as nat, "C"@),
    )
}

/// The first `rows` rows that show column values, with a dotted line between
/// each two.
pub open spec fn column_rows(columns: Seq<nat>, rows: nat) -> Seq<char>
    decreases rows,
{
    if rows == 0 {
        Seq::empty()
    } else if rows == 1 {
        column_row(columns, 0)
    } else {
        column_rows(columns, (rows - 1) as nat) + dotted_rule(columns.len()) + column_row(
            columns,
            rows - 1,
        )
    }
}

/// One row for every column value, each showing its value from its own column
/// upwards.
pub open spec fn column_rows_text(columns: Seq<nat>) -> Seq<char> {
    column_rows(columns, columns.len())
}

/// Appends the line that opens the table over a frame of `width` columns.
pub fn push_top_border(text: &mut String, width: usize)
    requires
        is_frame_width(width as nat),
    ensures
        final(text)@ == old(text)@ + top_border_text(width as nat),
{
    text.append("┏");
    push_repeated(text, "━", 4 * width - 1);
    text.append("┓");
    text.append("\n");
}

/// Appends the line that closes the table.
pub fn push_bottom_border(text: &mut String, width: usize)
    ensures
        final(text)@ == old(text)@ + bottom_border_text(width as nat),
{
    push_rule(text, "┗", "━━━", "┷", "┛", width);
}

/// Appends the line that closes a section.
pub fn push_closing_rule(text: &mut String, width: usize)
    ensures
        final(text)@ == old(text)@ + closing_rule(width as nat),
{
    push_rule(text, "┣", "━━━", "┷", "┫", width);
}

/// Appends the line that opens a grid under a title.
pub fn push_opening_rule(text: &mut String, width: usize)
    ensures
        final(text)@ == old(text)@ + opening_rule(width as nat),
{
    push_rule(text, "┣", "━━━", "┯", "┫", width);
}

/// Appends the line between two rows that belong together.
pub fn push_dotted_rule(text: &mut String, width: usize)
    ensures
        final(text)@ == old(text)@ + dotted_rule(width as nat),
{
    push_rule(text, "┠", "┈┈┈", "┼", "┨", width);
}

/// Appends the line between two blocks of a grid.
pub fn push_thin_rule(text: &mut String, width: usize)
    ensures
        final(text)@ == old(text)@ + thin_rule(width as nat),
{
    push_rule(text, "┠", "───", "┼", "┨", width);
}

/// The cells that number the columns, counting down to 1 at the right.
pub fn position_row(width: usize) -> (cells: Vec<Cell>)
    ensures
        cells@ == position_cells(width as nat),
{
    let mut cells: Vec<Cell> = Vec::new();
    let mut n: usize = 0;
    while n < width
        invariant
            n <= width,
            cells@.len() == n,
            forall|p: int| 0 <= p < n ==> #[trigger] cells@[p] == position_cells(width as nat)[p],
        decreases width - n,
    {
        cells.push(Cell::Number(width - n));
        n = n + 1;
    }
    assert(cells@ =~= position_cells(width as nat));
    cells
}

/// Appends the section that numbers the columns of a frame of `width`
/// columns.
pub fn push_position_title(text: &mut String, width: usize)
    requires
        is_frame_width(width as nat),
    ensures
        final(text)@ == old(text)@ + position_title_text(width as nat),
{
    push_title(text, "Pos.", 4 * width - 5);
    push_rule(text, "┠", "┄┄┄", "┬", "┨", width);
    let cells: Vec<Cell> = position_row(width);
    proof {
        reveal_strlit("");
    }
    push_grid_row(text, &cells, "");
    push_closing_rule(text, width);
}

/// Appends the title of a grid over a frame of `width` columns.
pub fn push_grid_title(text: &mut String, label: &str, width: usize)
    requires
        is_frame_width(width as nat),
    ensures
        final(text)@ == old(text)@ + grid_title_text(label@, width as nat),
{
    push_title(text, label, 4 * width - 5);
    push_opening_rule(text, width);
}

/// Appends the tag of a numbered row and ends the line.
pub fn push_numbered_tag(text: &mut String, number: usize, mark: &str)
    ensures
        final(text)@ == old(text)@ + numbered_tag(number as nat, mark@) + "\n"@,
{
    text.append(" ");
    push_decimal(text, number);
    text.append(" ");
    text.append(mark);
    text.append("\n");
}

/// Appends a row of the grid with a numbered tag to `text`.
pub fn push_numbered_row(text: &mut String, cells: &Vec<Cell>, number: usize, mark: &str)
    ensures
        final(text)@ == old(text)@ + grid_row(cells@, numbered_tag(number as nat, mark@)),
{
    push_cells(text, cells);
    push_numbered_tag(text, number, mark);
}

/// Every line of a frame that does not depend on the numbers is as wide as
/// the frame: the borders, the rules, and the title rows of the sections take
/// four characters for every column, and one more, before the end of the
/// line; the row of the positions has one cell for every column.
pub proof fn lemma_frame_lines_span_frame(width: nat)
    requires
        2 <= width < 1000,
    ensures
        top_border_text(width).len() == 4 * width + 2,
        bottom_border_text(width).len() == 4 * width + 2,
        closing_rule(width).len() == 4 * width + 2,
        opening_rule(width).len() == 4 * width + 2,
        dotted_rule(width).len() == 4 * width + 2,
        thin_rule(width).len() == 4 * width + 2,
        rule("┠"@, "┄┄┄"@, "┬"@, "┨"@, width).len() == 4 * width + 2,
        rule("┣"@, "━━━"@, "┿"@, "┫"@, width).len() == 4 * width + 2,
        section_title("Pos."@, width).len() == 4 * width + 2,
        section_title("Ops."@, width).len() == 4 * width + 2,
        section_title("Sum."@, width).len() == 4 * width + 2,
        section_title("Pro."@, width).len() == 4 * width + 2,
        position_cells(width).len() == width,
        grid_row(position_cells(width), Seq::empty()).len() == 4 * width + 2,
{
    reveal_strlit("┏");
    reveal_strlit("━");
    reveal_strlit("┓");
    reveal_strlit("\n");
    reveal_strlit("┗");
    reveal_strlit("━━━");
    reveal_strlit("┷");
    reveal_strlit("┛");
    reveal_strlit("┣");
    reveal_strlit("┫");
    reveal_strlit("┯");
    reveal_strlit("┠");
    reveal_strlit("┈┈┈");
    reveal_strlit("┼");
    reveal_strlit("┨");
    reveal_strlit("───");
    reveal_strlit("┄┄┄");
    reveal_strlit("┬");
    reveal_strlit("┿");
    reveal_strlit("Pos.");
    reveal_strlit("Ops.");
    reveal_strlit("Sum.");
    reveal_strlit("Pro.");
    lemma_repeated_len("━"@, (4 * width - 1) as nat);
    assert((4 * width - 1) * 1 == 4 * width - 1) by (nonlinear_arith);
    lemma_rule_len("┗"@, "━━━"@, "┷"@, "┛"@, width);
    lemma_rule_len("┣"@, "━━━"@, "┷"@, "┫"@, width);
    lemma_rule_len("┣"@, "━━━"@, "┯"@, "┫"@, width);
    lemma_rule_len("┠"@, "┈┈┈"@, "┼"@, "┨"@, width);
    lemma_rule_len("┠"@, "───"@, "┼"@, "┨"@, width);
    lemma_rule_len("┠"@, "┄┄┄"@, "┬"@, "┨"@, width);
    lemma_rule_len("┣"@, "━━━"@, "┿"@, "┫"@, width);
    lemma_title_row_len("Pos."@, (4 * width - 5) as nat);
    lemma_title_row_len("Ops."@, (4 * width - 5) as nat);
    lemma_title_row_len("Sum."@, (4 * width - 5) as nat);
    lemma_title_row_len("Pro."@, (4 * width - 5) as nat);
    lemma_grid_row_len(position_cells(width), Seq::empty());
}

} // verus!
