//! Decimal digits of natural numbers: the mathematical model that the
//! contracts of this crate are written over.

use vstd::prelude::*;

verus! {

/// Ten to the power `e`.
pub open spec fn pow10(e: nat) -> nat
    decreases e,
{
    if e == 0 {
        1
    } else {
        10 * pow10((e - 1) as nat)
    }
}

/// How many decimal digits `n` has; zero has one digit.
pub open spec fn digit_count(n: nat) -> nat
    decreases n,
{
    if n < 10 {
        1
    } else {
        1 + digit_count(n / 10)
    }
}

/// The digit of `n` that stands at place `i`, place 0 being the units.
pub open spec fn digit_at(n: nat, i: nat) -> nat {
    (n / pow10(i)) % 10
}

/// The decimal digits of `n`, the most significant one first.
pub open spec fn decimal_digits(n: nat) -> Seq<nat>
    decreases n,
{
    if n < 10 {
        seq![n]
    } else {
        decimal_digits(n / 10).push(n % 10)
    }
}

/// The values of a sequence of machine integers.
pub open spec fn as_nats(s: Seq<usize>) -> Seq<nat> {
    Seq::new(s.len(), |i: int| s[i] as nat)
}

/// The decimal digits of `number`, the most significant one first.
pub fn digits_of(number: u128) -> (digits: Vec<usize>)
    ensures
        as_nats(digits@) == decimal_digits(number as nat),
    decreases number,
{
    if number < 10 {
        let mut digits: Vec<usize> = Vec::new();
        digits.push(number as usize);
        assert(as_nats(digits@) =~= seq![number as nat]);
        digits
    } else {
        let mut digits: Vec<usize> = digits_of(number / 10);
        let ghost upper = digits@;
        digits.push((number % 10) as usize);
        assert(as_nats(digits@) =~= as_nats(upper).push((number % 10) as nat));
        digits
    }
}

/// `pow10` is never zero.
pub proof fn lemma_pow10_positive(e: nat)
    ensures
        pow10(e) >= 1,
    decreases e,
{
    if e > 0 {
        lemma_pow10_positive((e - 1) as nat);
    }
}

/// `pow10` grows with its exponent.
pub proof fn lemma_pow10_increases(e1: nat, e2: nat)
    requires
        e1 <= e2,
    ensures
        pow10(e1) <= pow10(e2),
    decreases e2,
{
    if e1 < e2 {
        lemma_pow10_increases(e1, (e2 - 1) as nat);
    }
}

/// `pow10` turns sums into products.
pub proof fn lemma_pow10_adds(e1: nat, e2: nat)
    ensures
        pow10(e1 + e2) == pow10(e1) * pow10(e2),
    decreases e1,
{
    if e1 == 0 {
        assert(pow10(0) == 1);
        assert(1 * pow10(e2) == pow10(e2));
    } else {
        lemma_pow10_adds((e1 - 1) as nat, e2);
        let power = pow10((e1 - 1) as nat);
        let other = pow10(e2);
        assert(pow10(e1 + e2) == 10 * pow10((e1 - 1 + e2) as nat));
        assert(10 * (power * other) == (10 * power) * other) by (nonlinear_arith);
    }
}

/// A number below `pow10(k)`, with `k >= 1`, has at most `k` digits.
pub proof fn lemma_digit_count_upper(n: nat, k: nat)
    requires
        k >= 1,
        n < pow10(k),
    ensures
        digit_count(n) <= k,
    decreases k,
{
    if n >= 10 {
        assert(pow10(1) == 10) by {
            reveal_with_fuel(pow10, 2);
        }
        assert(k >= 2);
        lemma_digit_count_upper(n / 10, (k - 1) as nat);
    }
}

/// A number with `k` digits is below `pow10(k)`, and, unless it is zero, at
/// least `pow10(k - 1)`.
pub proof fn lemma_digit_count_bounds(n: nat)
    ensures
        n < pow10(digit_count(n)),
        n > 0 ==> pow10((digit_count(n) - 1) as nat) <= n,
    decreases n,
{
    reveal_with_fuel(pow10, 2);
    if n >= 10 {
        lemma_digit_count_bounds(n / 10);
    }
}

/// A number has at most as many digits as any number that is not smaller.
pub proof fn lemma_digit_count_increases(n: nat, m: nat)
    requires
        n <= m,
    ensures
        digit_count(n) <= digit_count(m),
    decreases m,
{
    if n >= 10 {
        lemma_digit_count_increases(n / 10, m / 10);
    }
}

/// Every `u64`, and so every `usize`, has at most twenty digits.
pub proof fn lemma_digit_count_machine(n: nat)
    requires
        n <= u64::MAX,
    ensures
        1 <= digit_count(n) <= 20,
{
    assert(pow10(20) == 100_000_000_000_000_000_000) by {
        reveal_with_fuel(pow10, 21);
    }
    lemma_digit_count_upper(n, 20);
}

/// The product of two numbers has at most as many digits as both together.
pub proof fn lemma_product_bound(a: nat, b: nat)
    ensures
        a * b < pow10(digit_count(a) + digit_count(b)),
        digit_count(a * b) <= digit_count(a) + digit_count(b),
{
    lemma_digit_count_bounds(a);
    lemma_digit_count_bounds(b);
    let p = pow10(digit_count(a));
    let q = pow10(digit_count(b));
    lemma_pow10_adds(digit_count(a), digit_count(b));
    assert(a * b < p * q) by (nonlinear_arith)
        requires
            a < p,
            b < q,
    ;
    lemma_digit_count_upper(a * b, digit_count(a) + digit_count(b));
}

/// The product of two machine numbers fits in 128 bits.
pub proof fn lemma_product_machine(a: nat, b: nat)
    requires
        a <= u64::MAX,
        b <= u64::MAX,
    ensures
        a * b <= u128::MAX,
{
    assert(a * b <= 0xffff_ffff_ffff_ffff * 0xffff_ffff_ffff_ffff) by (nonlinear_arith)
        requires
            a <= 0xffff_ffff_ffff_ffff,
            b <= 0xffff_ffff_ffff_ffff,
    ;
}

/// The digit at place `i + 1` of `n` is the digit at place `i` of `n / 10`.
pub proof fn lemma_digit_at_shift(n: nat, i: nat)
    ensures
        digit_at(n, i + 1) == digit_at(n / 10, i),
{
    lemma_pow10_positive(i);
    vstd::arithmetic::div_mod::lemma_div_denominator(n as int, 10, pow10(i) as int);
    assert(pow10(i + 1) == 10 * pow10(i));
}

/// A number below `pow10(i)` has a zero at place `i`.
pub proof fn lemma_digit_at_above(n: nat, i: nat)
    requires
        n < pow10(i),
    ensures
        digit_at(n, i) == 0,
{
    lemma_pow10_positive(i);
    vstd::arithmetic::div_mod::lemma_basic_div(n as int, pow10(i) as int);
}

/// The places from `digit_count(n)` on hold zero.
pub proof fn lemma_digit_at_beyond(n: nat, i: nat)
    requires
        i >= digit_count(n),
    ensures
        digit_at(n, i) == 0,
{
    lemma_digit_count_bounds(n);
    lemma_pow10_increases(digit_count(n), i);
    lemma_digit_at_above(n, i);
}

/// What `n` is below `pow10(i + 1)` is what it is below `pow10(i)` and its
/// digit at place `i` with its weight.
pub proof fn lemma_low_part_step(n: nat, i: nat)
    ensures
        n % pow10(i + 1) == n % pow10(i) + digit_at(n, i) * pow10(i),
{
    lemma_pow10_positive(i);
    vstd::arithmetic::div_mod::lemma_mod_breakdown(n as int, pow10(i) as int, 10);
    assert(pow10(i + 1) == 10 * pow10(i));
    assert(pow10(i) * 10 == 10 * pow10(i));
    assert(pow10(i) * digit_at(n, i) == digit_at(n, i) * pow10(i)) by (nonlinear_arith);
}

/// `decimal_digits(n)` has `digit_count(n)` entries, and entry `j` is the digit
/// of `n` at place `digit_count(n) - 1 - j`.
pub proof fn lemma_decimal_digits(n: nat)
    ensures
        decimal_digits(n).len() == digit_count(n),
        forall|j: int|
            0 <= j < digit_count(n) ==> #[trigger] decimal_digits(n)[j] == digit_at(
                n,
                (digit_count(n) - 1 - j) as nat,
            ),
    decreases n,
{
    if n < 10 {
        assert(pow10(0) == 1);
        assert(digit_at(n, 0) == n);
    } else {
        lemma_decimal_digits(n / 10);
        let len = digit_count(n);
        assert forall|j: int| 0 <= j < len implies #[trigger] decimal_digits(n)[j] == digit_at(
            n,
            (len - 1 - j) as nat,
        ) by {
            let upper = decimal_digits(n / 10);
            assert(upper.len() == len - 1);
            assert(decimal_digits(n) == upper.push(n % 10));
            if j == len - 1 {
                assert(pow10(0) == 1);
                assert(digit_at(n, 0) == n % 10);
            } else {
                assert(upper[j] == digit_at(n / 10, (len - 2 - j) as nat));
                lemma_digit_at_shift(n, (len - 2 - j) as nat);
            }
        }
    }
}

} // verus!
