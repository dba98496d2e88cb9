//! Sequences of column values, column 0 being the least significant one:
//! what number they stand for, and how carrying folds them into digits.

use vstd::prelude::*;

use crate::decimal::{
    digit_at, digit_count, lemma_digit_at_shift, lemma_digit_count_upper, lemma_pow10_adds,
    lemma_pow10_positive, pow10,
};

verus! {

/// The number that the columns stand for: column `i` weighs `pow10(i)`.
pub open spec fn columns_value(columns: Seq<nat>) -> nat
    decreases columns.len(),
{
    if columns.len() == 0 {
        0
    } else {
        columns_value(columns.drop_last()) + columns.last() * pow10((columns.len() - 1) as nat)
    }
}

/// The plain sum of all columns.
pub open spec fn columns_total(columns: Seq<nat>) -> nat
    decreases columns.len(),
{
    if columns.len() == 0 {
        0
    } else {
        columns_total(columns.drop_last()) + columns.last()
    }
}

/// Every column holds a single digit.
pub open spec fn is_single_digits(columns: Seq<nat>) -> bool {
    forall|i: int| 0 <= i < columns.len() ==> #[trigger] columns[i] < 10
}

/// One pass of carrying: every column keeps its unit and receives the tens of
/// the column below it. What the last column would hand on is dropped.
pub open spec fn subtotal_pass(columns: Seq<nat>) -> Seq<nat> {
    Seq::new(
        columns.len(),
        |i: int|
            columns[i] % 10 + if i > 0 {
                columns[i - 1] / 10
            } else {
                0
            },
    )
}

/// The columns after `passes` passes of carrying.
pub open spec fn carried(columns: Seq<nat>, passes: nat) -> Seq<nat>
    decreases passes,
{
    if passes == 0 {
        columns
    } else {
        subtotal_pass(carried(columns, (passes - 1) as nat))
    }
}

/// The columns that carrying ends with: passes are repeated until every
/// column holds a single digit.
pub open spec fn collapse(columns: Seq<nat>) -> Seq<nat>
    decreases columns_total(columns),
{
    if is_single_digits(columns) {
        columns
    } else {
        proof {
            lemma_subtotal_pass_total(columns);
        }
        collapse(subtotal_pass(columns))
    }
}

/// Every column holds a number that leaves room for the columns below it:
/// a row of the frame can show the digits of column `i` from column `i`
/// upwards.
pub open spec fn columns_fit(columns: Seq<nat>) -> bool {
    forall|i: int|
        0 <= i < columns.len() ==> digit_count(#[trigger] columns[i]) + i <= columns.len()
}

/// A pass over columns that are single digits already changes nothing.
pub proof fn lemma_subtotal_pass_idempotent(columns: Seq<nat>)
    requires
        is_single_digits(columns),
    ensures
        subtotal_pass(columns) == columns,
{
    assert(subtotal_pass(columns) =~= columns);
}

/// Carrying lowers the plain sum of the columns whenever some column holds
/// more than a digit.
pub proof fn lemma_subtotal_pass_total(columns: Seq<nat>)
    ensures
        columns_total(subtotal_pass(columns)) <= columns_total(columns),
        !is_single_digits(columns) ==> columns_total(subtotal_pass(columns)) < columns_total(
            columns,
        ),
    decreases columns.len(),
{
    if columns.len() > 0 {
        let lower = columns.drop_last();
        let last = columns.last();
        lemma_subtotal_pass_total(lower);
        lemma_subtotal_pass_tens(lower);
        assert(subtotal_pass(columns).drop_last() =~= subtotal_pass(lower));
        if !is_single_digits(columns) {
            let i = choose|i: int| 0 <= i < columns.len() && !(#[trigger] columns[i] < 10);
            if i < columns.len() - 1 {
                assert(lower[i] == columns[i]);
                assert(!is_single_digits(lower));
            }
        }
    }
}

/// After a pass, the plain sum and the tens of the last column together are
/// at most the plain sum before it, and smaller if a column below the last
/// held more than a digit.
proof fn lemma_subtotal_pass_tens(columns: Seq<nat>)
    ensures
        columns.len() > 0 ==> columns_total(subtotal_pass(columns)) + columns.last() / 10
            + 9 * (columns.last() / 10) <= columns_total(columns),
        columns.len() > 0 && !is_single_digits(columns.drop_last()) ==> columns_total(
            subtotal_pass(columns),
        ) + columns.last() / 10 + 9 * (columns.last() / 10) < columns_total(columns),
    decreases columns.len(),
{
    if columns.len() > 0 {
        let lower = columns.drop_last();
        let last = columns.last();
        lemma_subtotal_pass_tens(lower);
        assert(subtotal_pass(columns).drop_last() =~= subtotal_pass(lower));
        if lower.len() > 0 {
            if !is_single_digits(lower) {
                let i = choose|i: int| 0 <= i < lower.len() && !(#[trigger] lower[i] < 10);
                if i < lower.len() - 1 {
                    assert(lower.drop_last()[i] == lower[i]);
                    assert(!is_single_digits(lower.drop_last()));
                }
            }
        } else {
            assert(columns_total(subtotal_pass(lower)) == 0);
        }
    }
}

/// A pass keeps the value of the columns, but for the tens of the last
/// column, which it drops.
pub proof fn lemma_subtotal_pass_value(columns: Seq<nat>)
    requires
        columns.len() > 0,
    ensures
        columns_value(subtotal_pass(columns)) + (columns.last() / 10) * pow10(columns.len())
            == columns_value(columns),
    decreases columns.len(),
{
    let n = columns.len();
    let lower = columns.drop_last();
    let last = columns.last();
    let weight = pow10((n - 1) as nat);
    assert(subtotal_pass(columns).drop_last() =~= subtotal_pass(lower));
    assert(pow10(n) == 10 * weight);
    if n == 1 {
        assert(columns_value(subtotal_pass(lower)) == 0);
        assert(columns_value(lower) == 0);
        assert(subtotal_pass(columns).last() == last % 10);
        assert((last % 10) * weight + (last / 10) * (10 * weight) == last * weight)
            by (nonlinear_arith)
            requires
                last == 10 * (last / 10) + last % 10,
        ;
    } else {
        lemma_subtotal_pass_value(lower);
        let below = lower.last();
        assert(columns[n - 2] == below);
        assert(subtotal_pass(columns).last() == last % 10 + below / 10);
        assert((last % 10 + below / 10) * weight + (last / 10) * (10 * weight) == last * weight
            + (below / 10) * weight) by (nonlinear_arith)
            requires
                last == 10 * (last / 10) + last % 10,
        ;
    }
}

/// A pass over columns whose value is below `pow10` of their number drops
/// nothing: it keeps their value.
pub proof fn lemma_carrying_keeps_value(columns: Seq<nat>)
    requires
        columns_value(columns) < pow10(columns.len()),
    ensures
        subtotal_pass(columns).len() == columns.len(),
        columns_value(subtotal_pass(columns)) == columns_value(columns),
{
    if columns.len() > 0 {
        lemma_top_column_is_digit(columns);
        lemma_subtotal_pass_value(columns);
        assert((columns.last() / 10) * pow10(columns.len()) == 0) by (nonlinear_arith)
            requires
                columns.last() / 10 == 0,
        ;
    } else {
        assert(subtotal_pass(columns) =~= columns);
    }
}

/// The last of columns whose value is below `pow10` of their number is a
/// single digit: a pass drops nothing.
pub proof fn lemma_top_column_is_digit(columns: Seq<nat>)
    requires
        columns.len() > 0,
        columns_value(columns) < pow10(columns.len()),
    ensures
        columns.last() < 10,
{
    lemma_value_bound_fits(columns);
    let last = columns[columns.len() - 1];
    assert(digit_count(last) <= 1);
    if last >= 10 {
        assert(digit_count(last / 10) >= 1);
    }
}

/// Carrying columns whose value is below `pow10` of their number ends with
/// the digits of that value.
pub proof fn lemma_collapse_digits(columns: Seq<nat>)
    requires
        columns_value(columns) < pow10(columns.len()),
    ensures
        collapse(columns).len() == columns.len(),
        is_single_digits(collapse(columns)),
        columns_value(collapse(columns)) == columns_value(columns),
        forall|i: int|
            0 <= i < columns.len() ==> #[trigger] collapse(columns)[i] == digit_at(
                columns_value(columns),
                i as nat,
            ),
    decreases columns_total(columns),
{
    if is_single_digits(columns) {
        lemma_single_digits_value(columns);
    } else {
        lemma_subtotal_pass_total(columns);
        lemma_carrying_keeps_value(columns);
        lemma_collapse_digits(subtotal_pass(columns));
    }
}

/// Columns that hold single digits hold the digits of their value, which is
/// below `pow10` of their number.
pub proof fn lemma_single_digits_value(columns: Seq<nat>)
    requires
        is_single_digits(columns),
    ensures
        columns_value(columns) < pow10(columns.len()),
        forall|i: int|
            0 <= i < columns.len() ==> #[trigger] columns[i] == digit_at(
                columns_value(columns),
                i as nat,
            ),
    decreases columns.len(),
{
    let n = columns.len();
    if n > 0 {
        let upper = columns.drop_first();
        let value = columns_value(columns);
        lemma_columns_value_first(columns);
        assert forall|i: int| 0 <= i < upper.len() implies #[trigger] upper[i] < 10 by {
            assert(upper[i] == columns[i + 1]);
        }
        lemma_single_digits_value(upper);
        assert(pow10(n) == 10 * pow10((n - 1) as nat));
        assert(columns[0] < 10);
        assert(value / 10 == columns_value(upper));
        assert(value % 10 == columns[0]);
        assert forall|i: int| 0 <= i < n implies #[trigger] columns[i] == digit_at(
            value,
            i as nat,
        ) by {
            if i == 0 {
                assert(pow10(0) == 1);
            } else {
                assert(upper[i - 1] == columns[i]);
                lemma_digit_at_shift(value, (i - 1) as nat);
            }
        }
    }
}

/// The value of the columns, told from the first column: it weighs one, and
/// the columns after it ten times what they weigh on their own.
pub proof fn lemma_columns_value_first(columns: Seq<nat>)
    requires
        columns.len() > 0,
    ensures
        columns_value(columns) == columns[0] + 10 * columns_value(columns.drop_first()),
    decreases columns.len(),
{
    let n = columns.len();
    if n == 1 {
        assert(columns_value(columns.drop_last()) == 0);
        assert(columns_value(columns.drop_first()) == 0);
        assert(pow10(0) == 1);
    } else {
        let lower = columns.drop_last();
        let upper = columns.drop_first();
        lemma_columns_value_first(lower);
        assert(upper.drop_last() =~= lower.drop_first());
        let last = columns.last();
        let weight = pow10((n - 2) as nat);
        assert(pow10((n - 1) as nat) == 10 * weight);
        assert(last * (10 * weight) == 10 * (last * weight)) by (nonlinear_arith);
        assert(upper.last() == last);
        assert(lower[0] == columns[0]);
        assert(columns_value(upper) == columns_value(upper.drop_last()) + last * weight);
        assert(columns_value(columns) == columns_value(lower) + last * (10 * weight));
    }
}

/// The value of the columns from column `from` on: that column weighs one,
/// and the columns after it ten times what they weigh on their own. It is
/// never more than the value of all columns.
pub proof fn lemma_columns_value_from(columns: Seq<nat>, from: int)
    requires
        0 <= from < columns.len(),
    ensures
        columns_value(columns.skip(from)) == columns[from] + 10 * columns_value(
            columns.skip(from + 1),
        ),
        columns_value(columns.skip(from)) <= columns_value(columns),
    decreases from,
{
    lemma_columns_value_first(columns.skip(from));
    assert(columns.skip(from).drop_first() =~= columns.skip(from + 1));
    if from == 0 {
        assert(columns.skip(0) =~= columns);
    } else {
        lemma_columns_value_from(columns, from - 1);
    }
}

/// A column with its weight is never more than the value of all columns.
pub proof fn lemma_column_below_value(columns: Seq<nat>, i: int)
    requires
        0 <= i < columns.len(),
    ensures
        columns[i] * pow10(i as nat) <= columns_value(columns),
    decreases columns.len(),
{
    let n = columns.len();
    let last = columns.last();
    let weight = pow10((n - 1) as nat);
    assert(last * weight >= 0) by (nonlinear_arith)
        requires
            last >= 0,
            weight >= 0,
    ;
    if i < n - 1 {
        lemma_column_below_value(columns.drop_last(), i);
    }
}

/// Columns whose value is below `pow10` of their number fit the frame.
pub proof fn lemma_value_bound_fits(columns: Seq<nat>)
    requires
        columns_value(columns) < pow10(columns.len()),
    ensures
        columns_fit(columns),
{
    let n = columns.len();
    assert forall|i: int| 0 <= i < n implies digit_count(#[trigger] columns[i]) + i <= n by {
        lemma_column_below_value(columns, i);
        lemma_pow10_adds((n - i) as nat, i as nat);
        lemma_pow10_positive(i as nat);
        let x = columns[i];
        let low = pow10(i as nat);
        let high = pow10((n - i) as nat);
        assert(x < high) by (nonlinear_arith)
            requires
                x * low < high * low,
                low >= 1,
        ;
        lemma_digit_count_upper(x, (n - i) as nat);
    }
}

/// Adding `amount` to column `i` adds `amount * pow10(i)` to the value.
pub proof fn lemma_columns_value_update(columns: Seq<nat>, i: int, amount: nat)
    requires
        0 <= i < columns.len(),
    ensures
        columns_value(columns.update(i, columns[i] + amount)) == columns_value(columns) + amount
            * pow10(i as nat),
    decreases columns.len(),
{
    let n = columns.len();
    let updated = columns.update(i, columns[i] + amount);
    let weight = pow10((n - 1) as nat);
    if i == n - 1 {
        assert(updated.drop_last() =~= columns.drop_last());
        assert((columns[i] + amount) * weight == columns[i] * weight + amount * weight)
            by (nonlinear_arith);
    } else {
        assert(updated.drop_last() =~= columns.drop_last().update(i, columns[i] + amount));
        lemma_columns_value_update(columns.drop_last(), i, amount);
    }
}

/// The value of columns added pairwise is the sum of the values.
pub proof fn lemma_columns_value_sum(left: Seq<nat>, right: Seq<nat>, both: Seq<nat>)
    requires
        left.len() == right.len() == both.len(),
        forall|i: int| 0 <= i < both.len() ==> #[trigger] both[i] == left[i] + right[i],
    ensures
        columns_value(both) == columns_value(left) + columns_value(right),
    decreases both.len(),
{
    let n = both.len();
    if n > 0 {
        let weight = pow10((n - 1) as nat);
        let x = left.last();
        let y = right.last();
        assert(both.last() == both[n - 1]);
        assert((x + y) * weight == x * weight + y * weight) by (nonlinear_arith);
        lemma_columns_value_sum(left.drop_last(), right.drop_last(), both.drop_last());
    }
}

/// Columns that are all zero have the value zero.
pub proof fn lemma_columns_value_zero(columns: Seq<nat>)
    requires
        forall|i: int| 0 <= i < columns.len() ==> #[trigger] columns[i] == 0,
    ensures
        columns_value(columns) == 0,
    decreases columns.len(),
{
    if columns.len() > 0 {
        lemma_columns_value_zero(columns.drop_last());
        assert(columns.last() == columns[columns.len() - 1]);
        assert(0 * pow10((columns.len() - 1) as nat) == 0);
    }
}

/// Columns that hold at most `bound` each sum up to at most `bound` times
/// their number.
pub proof fn lemma_columns_total_bound(columns: Seq<nat>, bound: nat)
    requires
        forall|i: int| 0 <= i < columns.len() ==> #[trigger] columns[i] <= bound,
    ensures
        columns_total(columns) <= bound * columns.len(),
    decreases columns.len(),
{
    if columns.len() > 0 {
        lemma_columns_total_bound(columns.drop_last(), bound);
        assert(columns.last() == columns[columns.len() - 1]);
        assert(bound * (columns.len() - 1) + bound == bound * columns.len()) by (nonlinear_arith);
    } else {
        assert(bound * 0 == 0);
    }
}

/// Passes of carrying over columns whose value is below `pow10` of their
/// number keep their number and their value, and leave columns that fit the
/// frame.
pub proof fn lemma_carried_keeps_value(columns: Seq<nat>, passes: nat)
    requires
        columns_value(columns) < pow10(columns.len()),
    ensures
        carried(columns, passes).len() == columns.len(),
        columns_value(carried(columns, passes)) == columns_value(columns),
        columns_fit(carried(columns, passes)),
    decreases passes,
{
    if passes > 0 {
        lemma_carried_keeps_value(columns, (passes - 1) as nat);
        lemma_carrying_keeps_value(carried(columns, (passes - 1) as nat));
    }
    lemma_value_bound_fits(carried(columns, passes));
}

/// One pass and then some more are one more pass than those.
pub proof fn lemma_carried_after_pass(columns: Seq<nat>, passes: nat)
    ensures
        carried(subtotal_pass(columns), passes) == carried(columns, passes + 1),
    decreases passes,
{
    if passes > 0 {
        lemma_carried_after_pass(columns, (passes - 1) as nat);
        assert(carried(columns, passes + 1) == subtotal_pass(carried(columns, passes)));
    } else {
        assert(carried(columns, 0) == columns);
        assert(carried(columns, 1) == subtotal_pass(carried(columns, 0)));
    }
}

} // verus!
