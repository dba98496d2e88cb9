//! Why the long multiplication is right: the column sums stand for the
//! product, and carrying turns them into its digits.

use vstd::prelude::*;

use crate::breakdown::{
    block_share_from, carry_blocks, carry_digit, carry_digits, column_sum, column_sums,
    column_sums_of, lemma_block_share_step, lemma_unit_and_carry, unit_blocks, unit_digit,
    unit_digits,
};
use crate::columns::{
    collapse, columns_value, is_single_digits, lemma_collapse_digits, lemma_columns_value_sum,
    lemma_columns_value_update, lemma_columns_value_zero,
};
use crate::decimal::{
    digit_at, digit_count, lemma_digit_count_bounds, lemma_low_part_step, lemma_pow10_adds,
    lemma_product_bound, pow10,
};
use crate::length::frame_width;

verus! {

/// The digits of `n` at the places below `width`, place 0 first.
pub open spec fn digits_by_place(n: nat, width: nat) -> Seq<nat> {
    Seq::new(width, |i: int| digit_at(n, i as nat))
}

/// What block `k` adds to every column of the frame, counting only the
/// multiplicand's digits at place `from` and above.
pub open spec fn block_row(multiplicand: nat, multiplier: nat, k: nat, from: nat) -> Seq<nat> {
    Seq::new(
        frame_width(multiplicand, multiplier),
        |c: int| block_share_from(multiplicand, multiplier, k, c as nat, from),
    )
}

/// What the pair of the multiplier's digit at place `k` and the
/// multiplicand's digit at place `d - k` adds to a column: the unit of their
/// product, or its carry; nothing if one of the two numbers has no such
/// place.
pub open spec fn diagonal_term(
    multiplicand: nat,
    multiplier: nat,
    d: int,
    k: int,
    carry: bool,
) -> nat {
    if 0 <= k < digit_count(multiplier) && 0 <= d - k < digit_count(multiplicand) {
        if carry {
            carry_digit(multiplicand, multiplier, (d - k) as nat, k as nat)
        } else {
            unit_digit(multiplicand, multiplier, (d - k) as nat, k as nat)
        }
    } else {
        0
    }
}

/// The sum of `diagonal_term` over the places `k` from `low` up to, and
/// without, `high`.
pub open spec fn diagonal_sum(
    multiplicand: nat,
    multiplier: nat,
    d: int,
    low: int,
    high: int,
    carry: bool,
) -> nat
    decreases high - low,
{
    if high <= low {
        0
    } else {
        diagonal_sum(multiplicand, multiplier, d, low, high - 1, carry) + diagonal_term(
            multiplicand,
            multiplier,
            d,
            high - 1,
            carry,
        )
    }
}

/// The column sums of a long multiplication stand for the product.
pub proof fn lemma_column_sums_value(multiplicand: nat, multiplier: nat)
    ensures
        column_sums(multiplicand, multiplier).len() == frame_width(multiplicand, multiplier),
        columns_value(column_sums(multiplicand, multiplier)) == multiplicand * multiplier,
        columns_value(column_sums(multiplicand, multiplier)) < pow10(
            column_sums(multiplicand, multiplier).len(),
        ),
{
    lemma_column_sums_of_value(multiplicand, multiplier, digit_count(multiplier));
    lemma_digit_count_bounds(multiplier);
    vstd::arithmetic::div_mod::lemma_small_mod(multiplier, pow10(digit_count(multiplier)));
    lemma_product_bound(multiplicand, multiplier);
}

/// Carrying the column sums of a long multiplication until every column
/// holds a single digit leaves the digits of the product, one per column of
/// the frame.
pub proof fn lemma_collapse_is_product(multiplicand: nat, multiplier: nat)
    ensures
        collapse(column_sums(multiplicand, multiplier)) == digits_by_place(
            multiplicand * multiplier,
            frame_width(multiplicand, multiplier),
        ),
        columns_value(collapse(column_sums(multiplicand, multiplier))) == multiplicand
            * multiplier,
{
    let sums = column_sums(multiplicand, multiplier);
    lemma_column_sums_value(multiplicand, multiplier);
    lemma_collapse_digits(sums);
    assert(collapse(sums) =~= digits_by_place(
        multiplicand * multiplier,
        frame_width(multiplicand, multiplier),
    ));
}

/// The digits that the product row of a table shows, one for every column of
/// the frame, are single digits, and read as a number they are the product.
pub proof fn lemma_product_digits_value(multiplicand: nat, multiplier: nat)
    ensures
        is_single_digits(
            digits_by_place(multiplicand * multiplier, frame_width(multiplicand, multiplier)),
        ),
        columns_value(
            digits_by_place(multiplicand * multiplier, frame_width(multiplicand, multiplier)),
        ) == multiplicand * multiplier,
{
    lemma_collapse_is_product(multiplicand, multiplier);
    lemma_column_sums_value(multiplicand, multiplier);
    lemma_collapse_digits(column_sums(multiplicand, multiplier));
}

/// Two single digits break down into one unit and one carry, which make up
/// their product.
pub proof fn lemma_single_digit_product(d1: nat, d2: nat)
    requires
        d1 < 10,
        d2 < 10,
    ensures
        unit_digits(d1, d2) == seq![(d1 * d2) % 10],
        carry_digits(d1, d2) == seq![(d1 * d2) / 10],
        unit_digits(d1, d2)[0] + 10 * carry_digits(d1, d2)[0] == d1 * d2,
{
    assert(pow10(0) == 1);
    assert(digit_at(d1, 0) == d1);
    assert(digit_at(d2, 0) == d2);
    assert(unit_blocks(d1, d2, 0) =~= Seq::<nat>::empty());
    assert(carry_blocks(d1, d2, 0) =~= Seq::<nat>::empty());
    assert(unit_blocks(d1, d2, 1) =~= seq![(d1 * d2) % 10]);
    assert(carry_blocks(d1, d2, 1) =~= seq![(d1 * d2) / 10]);
}

/// The column sums of a long multiplication do not depend on which of the
/// two numbers is the multiplier.
pub proof fn lemma_column_sums_commute(multiplicand: nat, multiplier: nat)
    ensures
        column_sums(multiplicand, multiplier) == column_sums(multiplier, multiplicand),
{
    let a = multiplicand;
    let b = multiplier;
    let one = column_sums(a, b);
    let other = column_sums(b, a);
    assert forall|c: int| 0 <= c < one.len() implies one[c] == other[c] by {
        lemma_column_sum_by_diagonals(a, b, c as nat, digit_count(b));
        lemma_column_sum_by_diagonals(b, a, c as nat, digit_count(a));
        lemma_diagonal_sum_commutes(a, b, c, false);
        lemma_diagonal_sum_commutes(a, b, c - 1, true);
    }
    assert(one =~= other);
}

/// The product that carrying ends with does not depend on which of the two
/// numbers is the multiplier.
pub proof fn lemma_product_commutes(multiplicand: nat, multiplier: nat)
    ensures
        collapse(column_sums(multiplicand, multiplier)) == collapse(
            column_sums(multiplier, multiplicand),
        ),
{
    lemma_column_sums_commute(multiplicand, multiplier);
}

/// Counting the multiplicand's digit at place `from` into block `k` adds its
/// unit, and its carry one place higher, to what the block stands for.
proof fn lemma_block_row_step(multiplicand: nat, multiplier: nat, k: nat, from: nat)
    requires
        k < digit_count(multiplier),
        from < digit_count(multiplicand),
    ensures
        columns_value(block_row(multiplicand, multiplier, k, from)) == columns_value(
            block_row(multiplicand, multiplier, k, from + 1),
        ) + unit_digit(multiplicand, multiplier, from, k) * pow10(k + from) + carry_digit(
            multiplicand,
            multiplier,
            from,
            k,
        ) * pow10(k + from + 1),
{
    let a = multiplicand;
    let b = multiplier;
    let row = block_row(a, b, k, from);
    let above = block_row(a, b, k, from + 1);
    let unit = unit_digit(a, b, from, k);
    let carry = carry_digit(a, b, from, k);
    let at = (k + from) as int;
    let with_unit = above.update(at, above[at] + unit);
    let with_both = with_unit.update(at + 1, with_unit[at + 1] + carry);
    assert forall|c: int| 0 <= c < row.len() implies with_both[c] == row[c] by {
        lemma_block_share_step(a, b, k, c as nat, from + 1);
    }
    assert(with_both =~= row);
    lemma_columns_value_update(above, at, unit);
    lemma_columns_value_update(with_unit, at + 1, carry);
}

/// The part of block `k` that comes from the multiplicand's digits at place
/// `from` and above stands for those digits times the multiplier's digit at
/// place `k`, each with its weight.
proof fn lemma_block_row_value(multiplicand: nat, multiplier: nat, k: nat, from: nat)
    requires
        k < digit_count(multiplier),
        from <= digit_count(multiplicand),
    ensures
        columns_value(block_row(multiplicand, multiplier, k, from)) == (multiplicand
            - multiplicand % pow10(from)) * (digit_at(multiplier, k) * pow10(k)),
    decreases digit_count(multiplicand) - from,
{
    let a = multiplicand;
    let b = multiplier;
    let len = digit_count(a);
    let factor = digit_at(b, k) * pow10(k);
    if from == len {
        lemma_digit_count_bounds(a);
        assert(a % pow10(len) == a) by {
            vstd::arithmetic::div_mod::lemma_small_mod(a, pow10(len));
        }
        lemma_columns_value_zero(block_row(a, b, k, from));
        assert((a - a % pow10(from)) * factor == 0) by (nonlinear_arith)
            requires
                a - a % pow10(from) == 0,
        ;
    } else {
        lemma_block_row_value(a, b, k, from + 1);
        lemma_block_row_step(a, b, k, from);
        lemma_unit_and_carry(a, b, from, k);
        lemma_low_part_step(a, from);
        lemma_pow10_adds(k, from);
        let unit = unit_digit(a, b, from, k);
        let carry = carry_digit(a, b, from, k);
        let da = digit_at(a, from);
        let db = digit_at(b, k);
        let pk = pow10(k);
        let pf = pow10(from);
        let rest = a - a % pow10(from + 1);
        assert(pow10(k + from + 1) == 10 * pow10(k + from));
        assert(unit * (pk * pf) + carry * (10 * (pk * pf)) + rest * (db * pk) == (rest + da * pf)
            * (db * pk)) by (nonlinear_arith)
            requires
                unit + 10 * carry == da * db,
        ;
    }
}

/// The column sums over the first `blocks` blocks stand for the multiplicand
/// times what the multiplier is below `pow10(blocks)`.
proof fn lemma_column_sums_of_value(multiplicand: nat, multiplier: nat, blocks: nat)
    requires
        blocks <= digit_count(multiplier),
    ensures
        columns_value(column_sums_of(multiplicand, multiplier, blocks)) == multiplicand
            * (multiplier % pow10(blocks)),
    decreases blocks,
{
    let a = multiplicand;
    let b = multiplier;
    let sums = column_sums_of(a, b, blocks);
    if blocks == 0 {
        lemma_columns_value_zero(sums);
        assert(pow10(0) == 1);
        assert(a * (b % pow10(0)) == 0) by (nonlinear_arith)
            requires
                b % pow10(0) == 0,
        ;
    } else {
        let k = (blocks - 1) as nat;
        let before = column_sums_of(a, b, k);
        let row = block_row(a, b, k, 0);
        lemma_column_sums_of_value(a, b, k);
        lemma_block_row_value(a, b, k, 0);
        lemma_columns_value_sum(before, row, sums);
        lemma_low_part_step(b, k);
        assert(pow10(0) == 1);
        assert(a % pow10(0) == 0);
        let low = b % pow10(k);
        let step = digit_at(b, k) * pow10(k);
        assert(a * low + (a - 0) * step == a * (low + step)) by (nonlinear_arith);
    }
}

/// A pair of digits adds the same, whichever of the two numbers is the
/// multiplier.
proof fn lemma_diagonal_term_commutes(a: nat, b: nat, d: int, k: int, carry: bool)
    ensures
        diagonal_term(a, b, d, k, carry) == diagonal_term(b, a, d, d - k, carry),
{
    if 0 <= k < digit_count(b) && 0 <= d - k < digit_count(a) {
        let x = digit_at(a, (d - k) as nat);
        let y = digit_at(b, k as nat);
        assert(x * y == y * x) by (nonlinear_arith);
    }
}

/// A sum over places can be told from its lowest place.
proof fn lemma_diagonal_sum_low(a: nat, b: nat, d: int, low: int, high: int, carry: bool)
    requires
        low < high,
    ensures
        diagonal_sum(a, b, d, low, high, carry) == diagonal_term(a, b, d, low, carry)
            + diagonal_sum(a, b, d, low + 1, high, carry),
    decreases high - low,
{
    if high - 1 > low {
        lemma_diagonal_sum_low(a, b, d, low, high - 1, carry);
    } else {
        assert(diagonal_sum(a, b, d, low, low, carry) == 0);
        assert(diagonal_sum(a, b, d, low + 1, high, carry) == 0);
    }
}

/// Summing the pairs of one diagonal from one end is summing them from the
/// other end with the two numbers exchanged.
proof fn lemma_diagonal_sum_reverse(a: nat, b: nat, d: int, low: int, high: int, carry: bool)
    requires
        0 <= low <= high <= d + 1,
    ensures
        diagonal_sum(a, b, d, low, high, carry) == diagonal_sum(
            b,
            a,
            d,
            d + 1 - high,
            d + 1 - low,
            carry,
        ),
    decreases high - low,
{
    if low < high {
        lemma_diagonal_sum_reverse(a, b, d, low, high - 1, carry);
        lemma_diagonal_term_commutes(a, b, d, high - 1, carry);
        lemma_diagonal_sum_low(b, a, d, d + 1 - high, d + 1 - low, carry);
    }
}

/// Places that add nothing can be left out at the upper end of a sum.
proof fn lemma_diagonal_sum_tail(a: nat, b: nat, d: int, from: int, high: int, carry: bool)
    requires
        0 <= from <= high,
        forall|k: int| from <= k < high ==> #[trigger] diagonal_term(a, b, d, k, carry) == 0,
    ensures
        diagonal_sum(a, b, d, 0, high, carry) == diagonal_sum(a, b, d, 0, from, carry),
    decreases high - from,
{
    if from < high {
        lemma_diagonal_sum_tail(a, b, d, from, high - 1, carry);
    }
}

/// The sum of a whole diagonal does not depend on which of the two numbers
/// is the multiplier.
proof fn lemma_diagonal_sum_commutes(a: nat, b: nat, d: int, carry: bool)
    requires
        d >= -1,
    ensures
        diagonal_sum(a, b, d, 0, digit_count(b) as int, carry) == diagonal_sum(
            b,
            a,
            d,
            0,
            digit_count(a) as int,
            carry,
        ),
{
    let la = digit_count(a) as int;
    let lb = digit_count(b) as int;
    if lb <= d + 1 {
        lemma_diagonal_sum_tail(a, b, d, lb, d + 1, carry);
    } else {
        lemma_diagonal_sum_tail(a, b, d, d + 1, lb, carry);
    }
    if la <= d + 1 {
        lemma_diagonal_sum_tail(b, a, d, la, d + 1, carry);
    } else {
        lemma_diagonal_sum_tail(b, a, d, d + 1, la, carry);
    }
    lemma_diagonal_sum_reverse(a, b, d, 0, d + 1, carry);
}

/// The sum of a column over the first blocks is the sum of the units on its
/// diagonal and of the carries on the diagonal before it.
proof fn lemma_column_sum_by_diagonals(a: nat, b: nat, c: nat, blocks: nat)
    requires
        blocks <= digit_count(b),
    ensures
        column_sum(a, b, c, blocks) == diagonal_sum(a, b, c as int, 0, blocks as int, false)
            + diagonal_sum(a, b, c - 1, 0, blocks as int, true),
    decreases blocks,
{
    if blocks > 0 {
        lemma_column_sum_by_diagonals(a, b, c, (blocks - 1) as nat);
    }
}

} // verus!
