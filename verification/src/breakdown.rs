//! The numbers behind a long multiplication: the product of every pair of
//! digits, split into a unit and a carry, and the sums of the columns they
//! fall into.
//!
//! Places and columns are counted from the least significant end. Block `k`
//! holds the products of the multiplier's digit at place `k` with every digit
//! of the multiplicand.

use vstd::prelude::*;

use crate::columns::{is_single_digits, subtotal_pass};
use crate::decimal::{
    as_nats, decimal_digits, digit_at, digit_count, digits_of, lemma_decimal_digits,
    lemma_digit_count_machine,
};
use crate::length::frame_width;

pub use crate::length::{get_number_length, get_numbers_length};

verus! {

/// The unit of the product of the multiplicand's digit at place `i` and the
/// multiplier's digit at place `k`.
pub open spec fn unit_digit(multiplicand: nat, multiplier: nat, i: nat, k: nat) -> nat {
    (digit_at(multiplicand, i) * digit_at(multiplier, k)) % 10
}

/// The carry of the product of the multiplicand's digit at place `i` and the
/// multiplier's digit at place `k`.
pub open spec fn carry_digit(multiplicand: nat, multiplier: nat, i: nat, k: nat) -> nat {
    (digit_at(multiplicand, i) * digit_at(multiplier, k)) / 10
}

/// The units of block `k`, in the order of the multiplicand's digits as they
/// are written: the most significant one first.
pub open spec fn unit_block(multiplicand: nat, multiplier: nat, k: nat) -> Seq<nat> {
    Seq::new(
        digit_count(multiplicand),
        |j: int|
            unit_digit(multiplicand, multiplier, (digit_count(multiplicand) - 1 - j) as nat, k),
    )
}

/// The carries of block `k`, in the same order as its units.
pub open spec fn carry_block(multiplicand: nat, multiplier: nat, k: nat) -> Seq<nat> {
    Seq::new(
        digit_count(multiplicand),
        |j: int|
            carry_digit(multiplicand, multiplier, (digit_count(multiplicand) - 1 - j) as nat, k),
    )
}

/// The units of the first `blocks` blocks, one block after the other.
pub open spec fn unit_blocks(multiplicand: nat, multiplier: nat, blocks: nat) -> Seq<nat>
    decreases blocks,
{
    if blocks == 0 {
        Seq::empty()
    } else {
        unit_blocks(multiplicand, multiplier, (blocks - 1) as nat) + unit_block(
            multiplicand,
            multiplier,
            (blocks - 1) as nat,
        )
    }
}

/// The carries of the first `blocks` blocks, one block after the other.
pub open spec fn carry_blocks(multiplicand: nat, multiplier: nat, blocks: nat) -> Seq<nat>
    decreases blocks,
{
    if blocks == 0 {
        Seq::empty()
    } else {
        carry_blocks(multiplicand, multiplier, (blocks - 1) as nat) + carry_block(
            multiplicand,
            multiplier,
            (blocks - 1) as nat,
        )
    }
}

/// All units: one block for every digit of the multiplier, the block of its
/// least significant digit first.
pub open spec fn unit_digits(multiplicand: nat, multiplier: nat) -> Seq<nat> {
    unit_blocks(multiplicand, multiplier, digit_count(multiplier))
}

/// All carries, block by block like the units.
pub open spec fn carry_digits(multiplicand: nat, multiplier: nat) -> Seq<nat> {
    carry_blocks(multiplicand, multiplier, digit_count(multiplier))
}

/// What block `k` adds to column `c`, counting only the multiplicand's digits
/// at place `from` and above: the unit of a product falls into the column of
/// its two places together, its carry into the next one.
pub open spec fn block_share_from(
    multiplicand: nat,
    multiplier: nat,
    k: nat,
    c: nat,
    from: nat,
) -> nat {
    let unit: nat = if k + from <= c < k + digit_count(multiplicand) {
        unit_digit(multiplicand, multiplier, (c - k) as nat, k)
    } else {
        0
    };
    let carry: nat = if k + 1 + from <= c < k + 1 + digit_count(multiplicand) {
        carry_digit(multiplicand, multiplier, (c - k - 1) as nat, k)
    } else {
        0
    };
    unit + carry
}

/// What block `k` adds to column `c`.
pub open spec fn block_share(multiplicand: nat, multiplier: nat, k: nat, c: nat) -> nat {
    block_share_from(multiplicand, multiplier, k, c, 0)
}

/// The sum of column `c` over the first `blocks` blocks.
pub open spec fn column_sum(multiplicand: nat, multiplier: nat, c: nat, blocks: nat) -> nat
    decreases blocks,
{
    if blocks == 0 {
        0
    } else {
        column_sum(multiplicand, multiplier, c, (blocks - 1) as nat) + block_share(
            multiplicand,
            multiplier,
            (blocks - 1) as nat,
            c,
        )
    }
}

/// The sums of all columns of the frame over the first `blocks` blocks,
/// column 0 first.
pub open spec fn column_sums_of(multiplicand: nat, multiplier: nat, blocks: nat) -> Seq<nat> {
    Seq::new(
        frame_width(multiplicand, multiplier),
        |c: int| column_sum(multiplicand, multiplier, c as nat, blocks),
    )
}

/// The sums of all columns of the frame, column 0 first.
pub open spec fn column_sums(multiplicand: nat, multiplier: nat) -> Seq<nat> {
    column_sums_of(multiplicand, multiplier, digit_count(multiplier))
}

/// The units and the carries of every digit-by-digit product.
///
/// Both vectors hold one block per digit of the multiplier, starting with its
/// least significant digit; inside a block the entries follow the digits of
/// the multiplicand from the most significant one down.
pub fn break_down_multiplication(multiplicand: usize, multiplier: usize) -> (operation: (
    Vec<usize>,
    Vec<usize>,
))
    ensures
        as_nats(operation.0@) == unit_digits(multiplicand as nat, multiplier as nat),
        as_nats(operation.1@) == carry_digits(multiplicand as nat, multiplier as nat),
        operation.0@.len() == digit_count(multiplicand as nat) * digit_count(multiplier as nat),
        operation.1@.len() == digit_count(multiplicand as nat) * digit_count(multiplier as nat),
{
    let ghost a = multiplicand as nat;
    let ghost b = multiplier as nat;
    let multiplicand_digits: Vec<usize> = digits_of(multiplicand as u128);
    let multiplier_digits: Vec<usize> = digits_of(multiplier as u128);
    let multiplicand_len: usize = multiplicand_digits.len();
    let multiplier_len: usize = multiplier_digits.len();
    proof {
        lemma_decimal_digits(a);
        lemma_decimal_digits(b);
        assert(as_nats(multiplicand_digits@).len() == multiplicand_len);
        assert(as_nats(multiplier_digits@).len() == multiplier_len);
    }
    let mut operation_unit: Vec<usize> = Vec::new();
    let mut operation_carry: Vec<usize> = Vec::new();
    assert(as_nats(operation_unit@) =~= unit_blocks(a, b, 0));
    assert(as_nats(operation_carry@) =~= carry_blocks(a, b, 0));
    let mut block: usize = 0;
    while block < multiplier_len
        invariant
            a == multiplicand as nat,
            b == multiplier as nat,
            block <= multiplier_len == digit_count(b),
            multiplicand_len == digit_count(a),
            multiplicand_digits@.len() == multiplicand_len,
            multiplier_digits@.len() == multiplier_len,
            as_nats(multiplicand_digits@) == decimal_digits(a),
            as_nats(multiplier_digits@) == decimal_digits(b),
            as_nats(operation_unit@) == unit_blocks(a, b, block as nat),
            as_nats(operation_carry@) == carry_blocks(a, b, block as nat),
        decreases multiplier_len - block,
    {
        let multiplier_digit: usize = multiplier_digits[multiplier_len - 1 - block];
        proof {
            lemma_decimal_digits(b);
            assert(as_nats(multiplier_digits@)[multiplier_len - 1 - block] == digit_at(
                b,
                block as nat,
            ));
        }
        let ghost done_units = operation_unit@;
        let ghost done_carries = operation_carry@;
        let mut index: usize = 0;
        while index < multiplicand_len
            invariant
                index <= multiplicand_len == digit_count(a),
                multiplicand_digits@.len() == multiplicand_len,
                block < digit_count(b),
                multiplier_digit == digit_at(b, block as nat),
                as_nats(multiplicand_digits@) == decimal_digits(a),
                as_nats(operation_unit@) == as_nats(done_units) + unit_block(
                    a,
                    b,
                    block as nat,
                ).take(index as int),
                as_nats(operation_carry@) == as_nats(done_carries) + carry_block(
                    a,
                    b,
                    block as nat,
                ).take(index as int),
            decreases multiplicand_len - index,
        {
            let multiplicand_digit: usize = multiplicand_digits[index];
            proof {
                lemma_decimal_digits(a);
                assert(as_nats(multiplicand_digits@)[index as int] == digit_at(
                    a,
                    (multiplicand_len - 1 - index) as nat,
                ));
                lemma_unit_and_carry(a, b, (multiplicand_len - 1 - index) as nat, block as nat);
            }
            let product: usize = multiplicand_digit * multiplier_digit;
            let ghost units_before = operation_unit@;
            let ghost carries_before = operation_carry@;
            operation_unit.push(product % 10);
            operation_carry.push(product / 10);
            index = index + 1;
            proof {
                assert(as_nats(operation_unit@) =~= as_nats(units_before).push(
                    (product % 10) as nat,
                ));
                assert(as_nats(operation_carry@) =~= as_nats(carries_before).push(
                    (product / 10) as nat,
                ));
                assert(unit_block(a, b, block as nat).take(index as int) =~= unit_block(
                    a,
                    b,
                    block as nat,
                ).take(index - 1).push((product % 10) as nat));
                assert(carry_block(a, b, block as nat).take(index as int) =~= carry_block(
                    a,
                    b,
                    block as nat,
                ).take(index - 1).push((product / 10) as nat));
            }
        }
        proof {
            assert(unit_block(a, b, block as nat).take(multiplicand_len as int) =~= unit_block(
                a,
                b,
                block as nat,
            ));
            assert(carry_block(a, b, block as nat).take(multiplicand_len as int) =~= carry_block(
                a,
                b,
                block as nat,
            ));
        }
        block = block + 1;
    }
    proof {
        lemma_blocks_len(a, b, digit_count(b));
        assert(as_nats(operation_unit@).len() == operation_unit@.len());
        assert(as_nats(operation_carry@).len() == operation_carry@.len());
    }
    (operation_unit, operation_carry)
}

/// The sum of every column of the long multiplication, column 0 first.
///
/// The unit of the product of two digits is added to the column of their two
/// places together, its carry to the column after it.
pub fn break_down_addition(multiplicand: usize, multiplier: usize) -> (addition: Vec<usize>)
    ensures
        as_nats(addition@) == column_sums(multiplicand as nat, multiplier as nat),
        addition@.len() == frame_width(multiplicand as nat, multiplier as nat),
{
    let ghost a = multiplicand as nat;
    let ghost b = multiplier as nat;
    let multiplicand_len: usize = get_number_length(multiplicand);
    let length: usize = get_numbers_length(multiplicand, multiplier);
    let step: usize = multiplicand_len;
    let blocks: usize = length - multiplicand_len;

    let (units, carriers) = break_down_multiplication(multiplicand, multiplier);

    let mut addition: Vec<usize> = Vec::new();
    while addition.len() < length
        invariant
            addition@.len() <= length,
            forall|c: int| 0 <= c < addition@.len() ==> addition@[c] == 0,
        decreases length - addition@.len(),
    {
        addition.push(0);
    }

    let mut iteration: usize = 0;
    let mut start: usize = 0;
    while iteration < blocks
        invariant
            a == multiplicand as nat,
            b == multiplier as nat,
            step == digit_count(a),
            blocks == digit_count(b),
            length == step + blocks,
            iteration <= blocks,
            start == iteration * step,
            as_nats(units@) == unit_digits(a, b),
            as_nats(carriers@) == carry_digits(a, b),
            addition@.len() == length,
            forall|c: int|
                0 <= c < length ==> #[trigger] addition@[c] == column_sum(
                    a,
                    b,
                    c as nat,
                    iteration as nat,
                ),
        decreases blocks - iteration,
    {
        proof {
            lemma_block_in_reach(a, b, iteration as nat);
            assert forall|j: int| 0 <= j < step implies #[trigger] units@[start + j]
                == unit_digit(a, b, (step - 1 - j) as nat, iteration as nat) by {
                lemma_blocks_entry(a, b, blocks as nat, iteration as nat, j as nat);
            }
            assert forall|j: int| 0 <= j < step implies #[trigger] carriers@[start + j]
                == carry_digit(a, b, (step - 1 - j) as nat, iteration as nat) by {
                lemma_blocks_entry(a, b, blocks as nat, iteration as nat, j as nat);
            }
        }
        add_block(&mut addition, &units, &carriers, start, step, iteration, Ghost(a), Ghost(b));
        iteration = iteration + 1;
        start = start + step;
    }
    addition
}

/// Adds the units and the carries of block `iteration`, which are the `step`
/// entries from index `start` on, to the columns they fall into.
fn add_block(
    addition: &mut Vec<usize>,
    units: &Vec<usize>,
    carriers: &Vec<usize>,
    start: usize,
    step: usize,
    iteration: usize,
    Ghost(a): Ghost<nat>,
    Ghost(b): Ghost<nat>,
)
    requires
        step == digit_count(a),
        iteration < 20,
        step + iteration + 1 <= old(addition)@.len(),
        start + step <= units@.len(),
        start + step <= carriers@.len(),
        start + step <= 400,
        forall|j: int|
            0 <= j < step ==> #[trigger] units@[start + j] == unit_digit(
                a,
                b,
                (step - 1 - j) as nat,
                iteration as nat,
            ),
        forall|j: int|
            0 <= j < step ==> #[trigger] carriers@[start + j] == carry_digit(
                a,
                b,
                (step - 1 - j) as nat,
                iteration as nat,
            ),
        forall|c: int|
            0 <= c < old(addition)@.len() ==> #[trigger] old(addition)@[c] == column_sum(
                a,
                b,
                c as nat,
                iteration as nat,
            ),
    ensures
        final(addition)@.len() == old(addition)@.len(),
        forall|c: int|
            0 <= c < final(addition)@.len() ==> #[trigger] final(addition)@[c] == column_sum(
                a,
                b,
                c as nat,
                (iteration + 1) as nat,
            ),
{
    let ghost k = iteration as nat;
    let ghost length = addition@.len();
    let end: usize = start + step;
    let mut sub_index: usize = start;
    while sub_index < end
        invariant
            step == digit_count(a),
            k == iteration < 20,
            length == addition@.len(),
            length >= step + k + 1,
            end == start + step <= 400,
            start <= sub_index <= end,
            end <= units@.len(),
            end <= carriers@.len(),
            forall|j: int|
                0 <= j < step ==> #[trigger] units@[start + j] == unit_digit(
                    a,
                    b,
                    (step - 1 - j) as nat,
                    k,
                ),
            forall|j: int|
                0 <= j < step ==> #[trigger] carriers@[start + j] == carry_digit(
                    a,
                    b,
                    (step - 1 - j) as nat,
                    k,
                ),
            forall|c: int|
                0 <= c < length ==> #[trigger] addition@[c] == column_sum(a, b, c as nat, k)
                    + block_share_from(a, b, k, c as nat, (end - sub_index) as nat),
        decreases end - sub_index,
    {
        let ghost from = (end - sub_index) as nat;
        let ghost before = addition@;
        let carry_index: usize = start + step + iteration - sub_index;
        let unit_index: usize = carry_index - 1;
        let carry: usize = carriers[sub_index];
        let unit: usize = units[sub_index];
        proof {
            assert(units@[start + (sub_index - start)] == unit_digit(a, b, (from - 1) as nat, k));
            assert(carriers@[start + (sub_index - start)] == carry_digit(
                a,
                b,
                (from - 1) as nat,
                k,
            ));
            lemma_unit_and_carry(a, b, (from - 1) as nat, k);
            lemma_column_sum_bound(a, b, carry_index as nat, k);
            lemma_column_sum_bound(a, b, unit_index as nat, k);
            lemma_block_share_step(a, b, k, carry_index as nat, from);
            lemma_block_share_step(a, b, k, unit_index as nat, from);
        }
        let carried: usize = addition[carry_index] + carry;
        addition.set(carry_index, carried);
        let added: usize = addition[unit_index] + unit;
        addition.set(unit_index, added);
        sub_index = sub_index + 1;
        proof {
            lemma_block_step(before, addition@, a, b, k, from);
        }
    }
}

/// One pass of carrying over the column sums: every column keeps its unit
/// and takes the tens of the column before it.
///
/// The tens of the last column have no column to go to and are dropped.
pub fn break_down_subtotal(addition: &Vec<usize>) -> (new_addition: Vec<usize>)
    ensures
        as_nats(new_addition@) == subtotal_pass(as_nats(addition@)),
        new_addition@.len() == addition@.len(),
{
    let ghost target = subtotal_pass(as_nats(addition@));
    let mut new_addition: Vec<usize> = Vec::new();
    let mut index: usize = 0;
    while index < addition.len()
        invariant
            index <= addition@.len(),
            target == subtotal_pass(as_nats(addition@)),
            new_addition@.len() == index,
            forall|i: int| 0 <= i < index ==> #[trigger] new_addition@[i] == target[i],
        decreases addition@.len() - index,
    {
        let number: usize = addition[index];
        let decimal: usize = if index > 0 {
            addition[index - 1] / 10
        } else {
            0
        };
        new_addition.push(number % 10 + decimal);
        index = index + 1;
    }
    new_addition
}

/// Whether some column holds more than a single digit, so that carrying has
/// to go on.
pub fn has_decimals(columns: &Vec<usize>) -> (found: bool)
    ensures
        found == !is_single_digits(as_nats(columns@)),
{
    let mut index: usize = 0;
    while index < columns.len()
        invariant
            index <= columns@.len(),
            forall|i: int| 0 <= i < index ==> #[trigger] as_nats(columns@)[i] < 10,
        decreases columns@.len() - index,
    {
        if columns[index] > 9 {
            assert(!(as_nats(columns@)[index as int] < 10));
            return true;
        }
        index = index + 1;
    }
    false
}

/// A product of two digits is at most 81, so its unit is at most 9 and its
/// carry at most 8, and the two make up the product again.
pub proof fn lemma_unit_and_carry(multiplicand: nat, multiplier: nat, i: nat, k: nat)
    ensures
        unit_digit(multiplicand, multiplier, i, k) <= 9,
        carry_digit(multiplicand, multiplier, i, k) <= 8,
        unit_digit(multiplicand, multiplier, i, k) + 10 * carry_digit(
            multiplicand,
            multiplier,
            i,
            k,
        ) == digit_at(multiplicand, i) * digit_at(multiplier, k),
{
    let x = digit_at(multiplicand, i);
    let y = digit_at(multiplier, k);
    assert(x * y <= 81) by (nonlinear_arith)
        requires
            x <= 9,
            y <= 9,
    ;
}

/// The first `blocks` blocks hold `digit_count(multiplicand)` entries each.
pub proof fn lemma_blocks_len(multiplicand: nat, multiplier: nat, blocks: nat)
    ensures
        unit_blocks(multiplicand, multiplier, blocks).len() == blocks * digit_count(multiplicand),
        carry_blocks(multiplicand, multiplier, blocks).len() == blocks * digit_count(multiplicand),
    decreases blocks,
{
    let len = digit_count(multiplicand);
    if blocks > 0 {
        lemma_blocks_len(multiplicand, multiplier, (blocks - 1) as nat);
        assert((blocks - 1) * len + len == blocks * len) by (nonlinear_arith);
    } else {
        assert(0 * len == 0);
    }
}

/// Block `k` of two machine numbers lies within the first 400 entries of all
/// units and of all carries, and leaves room for the next block to start.
pub proof fn lemma_block_in_reach(multiplicand: nat, multiplier: nat, k: nat)
    requires
        multiplicand <= usize::MAX,
        multiplier <= usize::MAX,
        k < digit_count(multiplier),
    ensures
        k < 20,
        1 <= digit_count(multiplicand) <= 20,
        k * digit_count(multiplicand) + digit_count(multiplicand) <= 400,
        k * digit_count(multiplicand) + digit_count(multiplicand) == (k + 1) * digit_count(
            multiplicand,
        ),
        (k + 1) * digit_count(multiplicand) <= unit_blocks(
            multiplicand,
            multiplier,
            digit_count(multiplier),
        ).len(),
        (k + 1) * digit_count(multiplicand) <= carry_blocks(
            multiplicand,
            multiplier,
            digit_count(multiplier),
        ).len(),
{
    let len = digit_count(multiplicand);
    let blocks = digit_count(multiplier);
    lemma_digit_count_machine(multiplicand);
    lemma_digit_count_machine(multiplier);
    lemma_blocks_len(multiplicand, multiplier, blocks);
    assert(k * len + len == (k + 1) * len) by (nonlinear_arith);
    assert((k + 1) * len <= blocks * len <= 400) by (nonlinear_arith)
        requires
            k + 1 <= blocks <= 20,
            0 <= len <= 20,
    ;
}

/// The first `blocks` blocks hold `digit_count(multiplicand)` entries each,
/// and entry `j` of block `k` belongs to the multiplicand's digit at place
/// `digit_count(multiplicand) - 1 - j`.
pub proof fn lemma_blocks_entry(multiplicand: nat, multiplier: nat, blocks: nat, k: nat, j: nat)
    requires
        k < blocks,
        j < digit_count(multiplicand),
    ensures
        unit_blocks(multiplicand, multiplier, blocks).len() == blocks * digit_count(multiplicand),
        carry_blocks(multiplicand, multiplier, blocks).len() == blocks * digit_count(multiplicand),
        k * digit_count(multiplicand) + j < blocks * digit_count(multiplicand),
        unit_blocks(multiplicand, multiplier, blocks)[(k * digit_count(multiplicand) + j) as int]
            == unit_digit(multiplicand, multiplier, (digit_count(multiplicand) - 1 - j) as nat, k),
        carry_blocks(multiplicand, multiplier, blocks)[(k * digit_count(multiplicand) + j) as int]
            == carry_digit(multiplicand, multiplier, (digit_count(multiplicand) - 1 - j) as nat, k),
    decreases blocks,
{
    let len = digit_count(multiplicand);
    lemma_blocks_len(multiplicand, multiplier, (blocks - 1) as nat);
    lemma_blocks_len(multiplicand, multiplier, blocks);
    assert((blocks - 1) * len + len == blocks * len) by (nonlinear_arith);
    if k < blocks - 1 {
        assert(k * len + len <= (blocks - 1) * len) by (nonlinear_arith)
            requires
                k + 1 <= blocks - 1,
                len >= 0,
        ;
        lemma_blocks_entry(multiplicand, multiplier, (blocks - 1) as nat, k, j);
    }
}

/// Block `k` is the `k`-th run of `digit_count(multiplicand)` entries of all
/// units, and of all carries.
pub proof fn lemma_block_is_subrange(multiplicand: nat, multiplier: nat, blocks: nat, k: nat)
    requires
        k < blocks,
    ensures
        (k + 1) * digit_count(multiplicand) <= unit_blocks(multiplicand, multiplier, blocks).len(),
        unit_blocks(multiplicand, multiplier, blocks).subrange(
            (k * digit_count(multiplicand)) as int,
            ((k + 1) * digit_count(multiplicand)) as int,
        ) == unit_block(multiplicand, multiplier, k),
        carry_blocks(multiplicand, multiplier, blocks).subrange(
            (k * digit_count(multiplicand)) as int,
            ((k + 1) * digit_count(multiplicand)) as int,
        ) == carry_block(multiplicand, multiplier, k),
{
    let len = digit_count(multiplicand);
    lemma_blocks_len(multiplicand, multiplier, blocks);
    assert((k + 1) * len == k * len + len) by (nonlinear_arith);
    assert((k + 1) * len <= blocks * len) by (nonlinear_arith)
        requires
            k + 1 <= blocks,
            len >= 0,
    ;
    let units = unit_blocks(multiplicand, multiplier, blocks).subrange(
        (k * len) as int,
        ((k + 1) * len) as int,
    );
    let carries = carry_blocks(multiplicand, multiplier, blocks).subrange(
        (k * len) as int,
        ((k + 1) * len) as int,
    );
    assert forall|j: int| 0 <= j < len implies units[j] == unit_block(
        multiplicand,
        multiplier,
        k,
    )[j] && carries[j] == carry_block(multiplicand, multiplier, k)[j] by {
        lemma_blocks_entry(multiplicand, multiplier, blocks, k, j as nat);
    }
    assert(units =~= unit_block(multiplicand, multiplier, k));
    assert(carries =~= carry_block(multiplicand, multiplier, k));
}

/// Adding the unit and the carry of the multiplicand's digit at place
/// `from - 1` to their columns takes that digit into account.
proof fn lemma_block_step(
    before: Seq<usize>,
    after: Seq<usize>,
    multiplicand: nat,
    multiplier: nat,
    k: nat,
    from: nat,
)
    requires
        1 <= from <= digit_count(multiplicand),
        k + from < before.len() == after.len(),
        forall|c: int|
            0 <= c < before.len() ==> #[trigger] before[c] == column_sum(
                multiplicand,
                multiplier,
                c as nat,
                k,
            ) + block_share_from(multiplicand, multiplier, k, c as nat, from),
        after[(k + from) as int] == before[(k + from) as int] + carry_digit(
            multiplicand,
            multiplier,
            (from - 1) as nat,
            k,
        ),
        after[k + from - 1] == before[k + from - 1] + unit_digit(
            multiplicand,
            multiplier,
            (from - 1) as nat,
            k,
        ),
        forall|c: int|
            0 <= c < before.len() && c != k + from && c != k + from - 1 ==> #[trigger] after[c]
                == before[c],
    ensures
        forall|c: int|
            0 <= c < after.len() ==> #[trigger] after[c] == column_sum(
                multiplicand,
                multiplier,
                c as nat,
                k,
            ) + block_share_from(multiplicand, multiplier, k, c as nat, (from - 1) as nat),
{
    assert forall|c: int| 0 <= c < after.len() implies #[trigger] after[c] == column_sum(
        multiplicand,
        multiplier,
        c as nat,
        k,
    ) + block_share_from(multiplicand, multiplier, k, c as nat, (from - 1) as nat) by {
        lemma_block_share_step(multiplicand, multiplier, k, c as nat, from);
        assert(before[c] == column_sum(multiplicand, multiplier, c as nat, k) + block_share_from(
            multiplicand,
            multiplier,
            k,
            c as nat,
            from,
        ));
    }
}

/// Taking the multiplicand's digit at place `from - 1` into account adds its
/// unit to one column and its carry to the next.
pub proof fn lemma_block_share_step(multiplicand: nat, multiplier: nat, k: nat, c: nat, from: nat)
    requires
        1 <= from <= digit_count(multiplicand),
    ensures
        block_share_from(multiplicand, multiplier, k, c, (from - 1) as nat) == block_share_from(
            multiplicand,
            multiplier,
            k,
            c,
            from,
        ) + (if c == k + from - 1 {
            unit_digit(multiplicand, multiplier, (from - 1) as nat, k)
        } else {
            0
        }) + (if c == k + from {
            carry_digit(multiplicand, multiplier, (from - 1) as nat, k)
        } else {
            0
        }),
        block_share_from(multiplicand, multiplier, k, c, from) <= 17,
{
    if c >= k {
        lemma_unit_and_carry(multiplicand, multiplier, (c - k) as nat, k);
    }
    if c >= k + 1 {
        lemma_unit_and_carry(multiplicand, multiplier, (c - k - 1) as nat, k);
    }
}

/// One block adds at most 17 to a column, so `blocks` blocks add at most
/// `17 * blocks`.
pub proof fn lemma_column_sum_bound(multiplicand: nat, multiplier: nat, c: nat, blocks: nat)
    ensures
        column_sum(multiplicand, multiplier, c, blocks) <= 17 * blocks,
    decreases blocks,
{
    if blocks > 0 {
        let k = (blocks - 1) as nat;
        lemma_column_sum_bound(multiplicand, multiplier, c, k);
        if c >= k {
            lemma_unit_and_carry(multiplicand, multiplier, (c - k) as nat, k);
        }
        if c >= k + 1 {
            lemma_unit_and_carry(multiplicand, multiplier, (c - k - 1) as nat, k);
        }
    }
}

} // verus!
