//! The pieces that every section of a table is drawn from: rules, title
//! rows, and rows of cells.
//!
//! A column of the frame is three characters wide. Between two columns
//! stands one separator, and a border closes the row at either end.

use vstd::prelude::*;

use crate::decimal::{as_nats, digit_count};

verus! {

/// What stands in one column of a row.
#[derive(Clone, Copy, Debug)]
pub enum Cell {
    /// Nothing.
    Blank,
    /// The multiplication sign.
    Times,
    /// A number: a digit, or the position of a column.
    Number(usize),
}

/// `piece`, `count` times over.
pub open spec fn repeated(piece: Seq<char>, count: nat) -> Seq<char>
    decreases count,
{
    if count == 0 {
        Seq::empty()
    } else {
        repeated(piece, (count - 1) as nat) + piece
    }
}

/// `count` times `piece`, with `joint` between each two.
pub open spec fn joined(piece: Seq<char>, joint: Seq<char>, count: nat) -> Seq<char>
    decreases count,
{
    if count == 0 {
        Seq::empty()
    } else if count == 1 {
        piece
    } else {
        joined(piece, joint, (count - 1) as nat) + joint + piece
    }
}

/// A horizontal line over `width` columns: `fill` is what covers one column,
/// `joint` what stands where two columns meet.
pub open spec fn rule(
    left: Seq<char>,
    fill: Seq<char>,
    joint: Seq<char>,
    right: Seq<char>,
    width: nat,
) -> Seq<char> {
    left + joined(fill, joint, width) + right + "\n"@
}

/// A row that holds a label at its left and is blank for `padding`
/// characters after it.
pub open spec fn title_row(label: Seq<char>, padding: nat) -> Seq<char> {
    "┃"@ + label + repeated(" "@, padding) + "┃\n"@
}

/// The character of a digit.
pub open spec fn digit_text(digit: nat) -> Seq<char> {
    "0123456789"@.subrange(digit as int, digit as int + 1)
}

/// A number written in decimal.
pub open spec fn decimal_text(n: nat) -> Seq<char>
    decreases n,
{
    if n < 10 {
        digit_text(n)
    } else {
        decimal_text(n / 10) + digit_text(n % 10)
    }
}

/// The three characters of a cell. A number stands in the middle, and moves
/// to the right as it grows.
pub open spec fn cell_text(cell: Cell) -> Seq<char> {
    match cell {
        Cell::Blank => "   "@,
        Cell::Times => " x "@,
        Cell::Number(n) => (if n < 100 {
            " "@
        } else {
            Seq::empty()
        }) + decimal_text(n as nat) + (if n < 10 {
            " "@
        } else {
            Seq::empty()
        }),
    }
}

/// The cells of a row, with a separator between each two.
pub open spec fn cells_text(cells: Seq<Cell>) -> Seq<char>
    decreases cells.len(),
{
    if cells.len() == 0 {
        Seq::empty()
    } else if cells.len() == 1 {
        cell_text(cells[0])
    } else {
        cells_text(cells.drop_last()) + "│"@ + cell_text(cells.last())
    }
}

/// A row of the grid: the cells between two borders, and after the closing
/// border the tag of the row.
pub open spec fn grid_row(cells: Seq<Cell>, tag: Seq<char>) -> Seq<char> {
    "┃"@ + cells_text(cells) + "┃"@ + tag + "\n"@
}

/// A row of `width` cells that shows `run` in adjacent cells and leaves `gap`
/// cells blank at its right end.
pub open spec fn placed_cells(width: nat, run: Seq<nat>, gap: nat) -> Seq<Cell> {
    Seq::new(
        width,
        |p: int|
            {
                let first = width - gap - run.len();
                if first <= p < first + run.len() {
                    Cell::Number(run[p - first] as usize)
                } else {
                    Cell::Blank
                }
            },
    )
}

/// Appends `piece` to `text`, `count` times.
pub fn push_repeated(text: &mut String, piece: &str, count: usize)
    ensures
        final(text)@ == old(text)@ + repeated(piece@, count as nat),
{
    let ghost start = text@;
    let mut n: usize = 0;
    while n < count
        invariant
            n <= count,
            text@ == start + repeated(piece@, n as nat),
        decreases count - n,
    {
        text.append(piece);
        n = n + 1;
    }
}

/// Appends a horizontal line over `width` columns to `text`.
pub fn push_rule(
    text: &mut String,
    left: &str,
    fill: &str,
    joint: &str,
    right: &str,
    width: usize,
)
    ensures
        final(text)@ == old(text)@ + rule(left@, fill@, joint@, right@, width as nat),
{
    let ghost start = text@;
    text.append(left);
    let mut n: usize = 0;
    while n < width
        invariant
            n <= width,
            text@ == start + left@ + joined(fill@, joint@, n as nat),
        decreases width - n,
    {
        if n > 0 {
            text.append(joint);
        }
        text.append(fill);
        n = n + 1;
    }
    text.append(right);
    text.append("\n");
}

/// Appends a title row to `text`.
pub fn push_title(text: &mut String, label: &str, padding: usize)
    ensures
        final(text)@ == old(text)@ + title_row(label@, padding as nat),
{
    text.append("┃");
    text.append(label);
    push_repeated(text, " ", padding);
    text.append("┃\n");
}

/// Appends the character of `digit`, which has to be a single digit, to
/// `text`.
pub fn push_digit(text: &mut String, digit: usize)
    requires
        digit < 10,
    ensures
        final(text)@ == old(text)@ + digit_text(digit as nat),
{
    let digits: &str = "0123456789";
    proof {
        reveal_strlit("0123456789");
    }
    text.append(digits.substring_ascii(digit, digit + 1));
}

/// Appends `number`, written in decimal, to `text`.
pub fn push_decimal(text: &mut String, number: usize)
    ensures
        final(text)@ == old(text)@ + decimal_text(number as nat),
    decreases number,
{
    if number < 10 {
        push_digit(text, number);
    } else {
        push_decimal(text, number / 10);
        push_digit(text, number % 10);
    }
}

/// Appends the three characters of `cell` to `text`.
pub fn push_cell(text: &mut String, cell: Cell)
    ensures
        final(text)@ == old(text)@ + cell_text(cell),
{
    match cell {
        Cell::Blank => {
            text.append("   ");
        },
        Cell::Times => {
            text.append(" x ");
        },
        Cell::Number(n) => {
            if n < 100 {
                text.append(" ");
            }
            push_decimal(text, n);
            if n < 10 {
                text.append(" ");
            }
        },
    }
}

/// Appends a row of the grid to `text`, up to and with its closing border.
/// The tag and the end of the line are left to the caller.
pub fn push_cells(text: &mut String, cells: &Vec<Cell>)
    ensures
        final(text)@ == old(text)@ + "┃"@ + cells_text(cells@) + "┃"@,
{
    let ghost start = text@;
    text.append("┃");
    let mut p: usize = 0;
    while p < cells.len()
        invariant
            p <= cells@.len(),
            text@ == start + "┃"@ + cells_text(cells@.take(p as int)),
        decreases cells@.len() - p,
    {
        if p > 0 {
            text.append("│");
        }
        push_cell(text, cells[p]);
        p = p + 1;
        proof {
            let done = cells@.take(p as int);
            assert(done.drop_last() =~= cells@.take(p - 1));
        }
    }
    assert(cells@.take(p as int) =~= cells@);
    text.append("┃");
}

/// Appends a row of the grid to `text`, with its tag and the end of the line.
pub fn push_grid_row(text: &mut String, cells: &Vec<Cell>, tag: &str)
    ensures
        final(text)@ == old(text)@ + grid_row(cells@, tag@),
{
    push_cells(text, cells);
    text.append(tag);
    text.append("\n");
}

/// A row of `width` cells that shows `count` numbers of `source`, from index
/// `from` on, in adjacent cells, and leaves `gap` cells blank at its right
/// end. The numbers have to be there, and the row has to be wide enough for
/// them and the gap.
pub fn placed_row(
    width: usize,
    source: &Vec<usize>,
    from: usize,
    count: usize,
    gap: usize,
) -> (cells: Vec<Cell>)
    requires
        from + count <= source@.len(),
        count + gap <= width,
    ensures
        cells@ == placed_cells(
            width as nat,
            as_nats(source@).subrange(from as int, from + count),
            gap as nat,
        ),
{
    let ghost target = placed_cells(
        width as nat,
        as_nats(source@).subrange(from as int, from + count),
        gap as nat,
    );
    let first: usize = width - gap - count;
    let mut cells: Vec<Cell> = Vec::new();
    assert(source@.len() == source.len());
    let mut p: usize = 0;
    while p < width
        invariant
            p <= width,
            first == width - gap - count,
            from + count <= source@.len() <= usize::MAX,
            count + gap <= width,
            cells@.len() == p,
            target == placed_cells(
                width as nat,
                as_nats(source@).subrange(from as int, from + count),
                gap as nat,
            ),
            forall|q: int| 0 <= q < p ==> #[trigger] cells@[q] == target[q],
        decreases width - p,
    {
        if first <= p && p < first + count {
            cells.push(Cell::Number(source[from + (p - first)]));
        } else {
            cells.push(Cell::Blank);
        }
        p = p + 1;
    }
    cells
}

/// A number written in decimal takes one character for each of its digits.
pub proof fn lemma_decimal_text_len(n: nat)
    ensures
        decimal_text(n).len() == digit_count(n),
    decreases n,
{
    reveal_strlit("0123456789");
    if n >= 10 {
        lemma_decimal_text_len(n / 10);
    }
}

/// A cell is three characters wide, whatever stands in it, as long as a
/// number in it has at most three digits.
pub proof fn lemma_cell_text_len(cell: Cell)
    requires
        cell matches Cell::Number(n) ==> n < 1000,
    ensures
        cell_text(cell).len() == 3,
{
    reveal_strlit("   ");
    reveal_strlit(" x ");
    reveal_strlit(" ");
    match cell {
        Cell::Number(n) => {
            lemma_decimal_text_len(n as nat);
            reveal_with_fuel(digit_count, 4);
        },
        _ => {},
    }
}

/// The cells of a row with their separators take four characters for each
/// cell, less one.
proof fn lemma_cells_text_len(cells: Seq<Cell>)
    requires
        cells.len() > 0,
        forall|p: int|
            0 <= p < cells.len() ==> (#[trigger] cells[p] matches Cell::Number(n) ==> n < 1000),
    ensures
        cells_text(cells).len() == 4 * cells.len() - 1,
    decreases cells.len(),
{
    reveal_strlit("│");
    if cells.len() == 1 {
        lemma_cell_text_len(cells[0]);
    } else {
        lemma_cells_text_len(cells.drop_last());
        lemma_cell_text_len(cells.last());
    }
}

/// A row of the grid is as wide as its cells make it: every cell takes three
/// characters and a separator or the closing border after it; the opening
/// border goes before them, and the tag and the end of the line after them.
pub proof fn lemma_grid_row_len(cells: Seq<Cell>, tag: Seq<char>)
    requires
        cells.len() > 0,
        forall|p: int|
            0 <= p < cells.len() ==> (#[trigger] cells[p] matches Cell::Number(n) ==> n < 1000),
    ensures
        grid_row(cells, tag).len() == 4 * cells.len() + 1 + tag.len() + 1,
{
    reveal_strlit("┃");
    reveal_strlit("\n");
    lemma_cells_text_len(cells);
}

/// Repeating a piece repeats its length.
pub proof fn lemma_repeated_len(piece: Seq<char>, count: nat)
    ensures
        repeated(piece, count).len() == count * piece.len(),
    decreases count,
{
    if count > 0 {
        lemma_repeated_len(piece, (count - 1) as nat);
        assert((count - 1) * piece.len() + piece.len() == count * piece.len())
            by (nonlinear_arith);
    } else {
        assert(0 * piece.len() == 0);
    }
}

/// Joined pieces take the length of every piece and of the joints between
/// them.
pub proof fn lemma_joined_len(piece: Seq<char>, joint: Seq<char>, count: nat)
    requires
        count >= 1,
    ensures
        joined(piece, joint, count).len() == count * piece.len() + (count - 1) * joint.len(),
    decreases count,
{
    if count > 1 {
        lemma_joined_len(piece, joint, (count - 1) as nat);
        assert((count - 1) * piece.len() + piece.len() == count * piece.len())
            by (nonlinear_arith);
        assert((count - 2) * joint.len() + joint.len() == (count - 1) * joint.len())
            by (nonlinear_arith);
    } else {
        assert(1 * piece.len() == piece.len());
        assert(0 * joint.len() == 0);
    }
}

/// A horizontal line whose ends and joints are one character and whose fill
/// is three takes four characters for every column, and one more, before the
/// end of the line.
pub proof fn lemma_rule_len(
    left: Seq<char>,
    fill: Seq<char>,
    joint: Seq<char>,
    right: Seq<char>,
    width: nat,
)
    requires
        left.len() == 1,
        fill.len() == 3,
        joint.len() == 1,
        right.len() == 1,
        width >= 1,
    ensures
        rule(left, fill, joint, right, width).len() == 4 * width + 2,
{
    reveal_strlit("\n");
    lemma_joined_len(fill, joint, width);
    assert(width * 3 == 3 * width && (width - 1) * 1 == width - 1) by (nonlinear_arith);
}

/// A title row takes its label, its padding, the two borders and the end of
/// the line.
pub proof fn lemma_title_row_len(label: Seq<char>, padding: nat)
    ensures
        title_row(label, padding).len() == label.len() + padding + 3,
{
    reveal_strlit("┃");
    reveal_strlit(" ");
    reveal_strlit("┃\n");
    lemma_repeated_len(" "@, padding);
    assert(padding * 1 == padding) by (nonlinear_arith);
}

/// A row that shows a run of digits is as wide as the frame makes it,
/// wherever the run stands.
pub proof fn lemma_placed_row_len(width: nat, run: Seq<nat>, gap: nat, tag: Seq<char>)
    requires
        width > 0,
        forall|i: int| 0 <= i < run.len() ==> #[trigger] run[i] <= 9,
    ensures
        placed_cells(width, run, gap).len() == width,
        grid_row(placed_cells(width, run, gap), tag).len() == 4 * width + 2 + tag.len(),
{
    let cells = placed_cells(width, run, gap);
    assert forall|p: int| 0 <= p < cells.len() implies (#[trigger] cells[p] matches Cell::Number(n)
        ==> n < 1000) by {
        let first = width - gap - run.len();
        if first <= p < first + run.len() {
            assert(run[p - first] <= 9);
        }
    }
    lemma_grid_row_len(cells, tag);
}

} // verus!
