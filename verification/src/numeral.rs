//! Decimal numerals: what a row of digits is worth, and an exact comparison
//! of two sums of numerals that never forms a number larger than a column of
//! digits.
use vstd::prelude::*;

verus! {

/// Ten to the power of `exponent`.
pub open spec fn pow10(exponent: nat) -> int
    decreases exponent,
{
    if exponent == 0 {
        1
    } else {
        10 * pow10((exponent - 1) as nat)
    }
}

/// The digit of `row` at `place`, places being counted from the right and the
/// units standing at place 0. Beyond the left end of the row it is 0.
pub open spec fn place(row: Seq<int>, place: nat) -> int {
    if place < row.len() {
        row[row.len() - 1 - place]
    } else {
        0
    }
}

/// What the `places` rightmost digits of `row` are worth: each digit times
/// ten to the power of its place.
pub open spec fn low_value(row: Seq<int>, places: nat) -> int
    decreases places,
{
    if places == 0 {
        0
    } else {
        low_value(row, (places - 1) as nat) + place(row, (places - 1) as nat) * pow10(
            (places - 1) as nat,
        )
    }
}

/// The number that `row` is the decimal numeral of, most significant digit
/// first.
pub open spec fn numeral_value(row: Seq<int>) -> int {
    low_value(row, row.len())
}

/// The sum of the numbers that the rows are the numerals of.
pub open spec fn rows_total(rows: Seq<Seq<int>>) -> int
    decreases rows.len(),
{
    if rows.len() == 0 {
        0
    } else {
        rows_total(rows.drop_last()) + numeral_value(rows.last())
    }
}

/// The sum of the digits that the rows have at `place`.
pub open spec fn column(rows: Seq<Seq<int>>, place: nat) -> int
    decreases rows.len(),
{
    if rows.len() == 0 {
        0
    } else {
        column(rows.drop_last(), place) + self::place(rows.last(), place)
    }
}

/// The sum of what the `places` rightmost digits of each row are worth.
pub open spec fn low_total(rows: Seq<Seq<int>>, places: nat) -> int
    decreases rows.len(),
{
    if rows.len() == 0 {
        0
    } else {
        low_total(rows.drop_last(), places) + low_value(rows.last(), places)
    }
}

/// The columns from place `from` up to, not including, place `to`, as a
/// number in units of ten to the power of `from`.
pub open spec fn high_total(rows: Seq<Seq<int>>, from: nat, to: nat) -> int
    decreases to,
{
    if to <= from {
        0
    } else {
        high_total(rows, from, (to - 1) as nat) + column(rows, (to - 1) as nat) * pow10(
            (to - 1 - from) as nat,
        )
    }
}

/// The digits of a row of bytes, as integers.
pub open spec fn row_ints(row: Seq<u8>) -> Seq<int> {
    Seq::new(row.len(), |i: int| row[i] as int)
}

/// The digits of several rows of bytes, as integers.
pub open spec fn rows_ints(rows: Seq<Vec<u8>>) -> Seq<Seq<int>> {
    Seq::new(rows.len(), |i: int| row_ints(rows[i]@))
}

/// Every power of ten is positive.
pub proof fn lemma_pow10_positive(exponent: nat)
    ensures
        pow10(exponent) > 0,
    decreases exponent,
{
    if exponent > 0 {
        lemma_pow10_positive((exponent - 1) as nat);
    }
}

/// Powers of ten multiply by adding their exponents.
pub proof fn lemma_pow10_adds(a: nat, b: nat)
    ensures
        pow10(a + b) == pow10(a) * pow10(b),
    decreases b,
{
    if b == 0 {
        assert(pow10(a) * 1 == pow10(a));
    } else {
        lemma_pow10_adds(a, (b - 1) as nat);
        let p = pow10(a);
        let q = pow10((b - 1) as nat);
        assert(pow10(a + b) == 10 * pow10((a + b - 1) as nat));
        assert(10 * (p * q) == p * (10 * q)) by (nonlinear_arith);
    }
}

/// Places beyond the left end of a row add nothing to its value.
pub proof fn lemma_low_value_saturates(row: Seq<int>, places: nat)
    requires
        places >= row.len(),
    ensures
        low_value(row, places) == numeral_value(row),
    decreases places,
{
    if places > row.len() {
        lemma_low_value_saturates(row, (places - 1) as nat);
        assert(place(row, (places - 1) as nat) == 0);
        assert(0 * pow10((places - 1) as nat) == 0);
    }
}

/// One more place adds one more column to the low total.
pub proof fn lemma_low_total_step(rows: Seq<Seq<int>>, places: nat)
    ensures
        low_total(rows, places + 1) == low_total(rows, places) + column(rows, places) * pow10(
            places,
        ),
    decreases rows.len(),
{
    if rows.len() == 0 {
        assert(0 * pow10(places) == 0);
    } else {
        lemma_low_total_step(rows.drop_last(), places);
        let c = column(rows.drop_last(), places);
        let d = place(rows.last(), places);
        let p = pow10(places);
        assert((c + d) * p == c * p + d * p) by (nonlinear_arith);
    }
}

/// Once every row is exhausted, the low total is the total.
pub proof fn lemma_low_total_saturates(rows: Seq<Seq<int>>, places: nat)
    requires
        forall|i: int| 0 <= i < rows.len() ==> (#[trigger] rows[i]).len() <= places,
    ensures
        low_total(rows, places) == rows_total(rows),
    decreases rows.len(),
{
    if rows.len() > 0 {
        lemma_low_total_saturates(rows.drop_last(), places);
        lemma_low_value_saturates(rows.last(), places);
    }
}

/// The low total of more places exceeds that of fewer places by a multiple of
/// the power of ten at which they part.
pub proof fn lemma_low_total_splits(rows: Seq<Seq<int>>, from: nat, to: nat)
    requires
        from <= to,
    ensures
        low_total(rows, to) == low_total(rows, from) + pow10(from) * high_total(rows, from, to),
    decreases to,
{
    if to == from {
        assert(pow10(from) * 0 == 0);
    } else {
        let prev = (to - 1) as nat;
        lemma_low_total_splits(rows, from, prev);
        lemma_low_total_step(rows, prev);
        lemma_pow10_adds(from, (prev - from) as nat);
        let p = pow10(from);
        let q = pow10((prev - from) as nat);
        let h = high_total(rows, from, prev);
        let c = column(rows, prev);
        assert(p * (h + c * q) == p * h + c * (p * q)) by (nonlinear_arith);
    }
}

/// With no places counted, the low total is nothing.
pub proof fn lemma_low_total_of_no_places(rows: Seq<Seq<int>>)
    ensures
        low_total(rows, 0) == 0,
    decreases rows.len(),
{
    if rows.len() > 0 {
        lemma_low_total_of_no_places(rows.drop_last());
    }
}

/// The length of the longest row, 0 where there is no row.
pub fn longest_row(rows: &Vec<Vec<u8>>) -> (longest: usize)
    ensures
        forall|i: int| 0 <= i < rows.len() ==> (#[trigger] rows[i]).len() <= longest,
        rows.len() == 0 ==> longest == 0,
        rows.len() > 0 ==> exists|i: int| 0 <= i < rows.len() && (#[trigger] rows[i]).len() == longest,
{
    let mut longest: usize = 0;
    let mut index: usize = 0;
    while index < rows.len()
        invariant
            index <= rows.len(),
            forall|i: int| 0 <= i < index ==> (#[trigger] rows[i]).len() <= longest,
            index == 0 ==> longest == 0,
            index > 0 ==> exists|i: int| 0 <= i < index && (#[trigger] rows[i]).len() == longest,
        decreases rows.len() - index,
    {
        if rows[index].len() > longest {
            longest = rows[index].len();
        }
        index += 1;
    }
    longest
}

/// The sum of the digits that the rows have at `place`, places being counted
/// from the right.
pub fn column_sum(rows: &Vec<Vec<u8>>, place: usize) -> (sum: u128)
    ensures
        sum == column(rows_ints(rows@), place as nat),
        sum <= 255 * rows.len(),
{
    let ghost all = rows_ints(rows@);
    let mut sum: u128 = 0;
    let mut index: usize = 0;
    while index < rows.len()
        invariant
            index <= rows.len(),
            all == rows_ints(rows@),
            sum == column(all.take(index as int), place as nat),
            sum <= 255 * index,
        decreases rows.len() - index,
    {
        let row = &rows[index];
        let digit: u8 = if place < row.len() {
            row[row.len() - 1 - place]
        } else {
            0
        };
        proof {
            let next = all.take(index + 1);
            assert(next.drop_last() =~= all.take(index as int));
            assert(next.last() == row_ints(row@));
            assert(self::place(row_ints(row@), place as nat) == digit);
        }
        sum = sum + digit as u128;
        index += 1;
    }
    proof {
        assert(all.take(rows.len() as int) =~= all);
    }
    sum
}

/// Whether the numbers of the left rows and the numbers of the right rows add
/// up to the same total. Each row is a decimal numeral, most significant digit
/// first, of any length.
///
/// The two sums are worked out digit by digit from the units upwards, each
/// with its carry, and compared place by place: no number larger than a
/// column of digits and a carry is ever formed.
pub fn totals_agree(left: &Vec<Vec<u8>>, right: &Vec<Vec<u8>>) -> (agree: bool)
    ensures
        agree == (rows_total(rows_ints(left@)) == rows_total(rows_ints(right@))),
{
    let ghost lrows = rows_ints(left@);
    let ghost rrows = rows_ints(right@);
    let left_longest = longest_row(left);
    let right_longest = longest_row(right);
    let places = if left_longest > right_longest {
        left_longest
    } else {
        right_longest
    };
    let mut place: usize = 0;
    let mut left_carry: u128 = 0;
    let mut right_carry: u128 = 0;
    proof {
        lemma_low_total_of_no_places(lrows);
        lemma_low_total_of_no_places(rrows);
        lemma_low_total_saturates(lrows, places as nat);
        lemma_low_total_saturates(rrows, places as nat);
    }
    while place < places
        invariant
            place <= places,
            lrows == rows_ints(left@),
            rrows == rows_ints(right@),
            low_total(lrows, places as nat) == rows_total(lrows),
            low_total(rrows, places as nat) == rows_total(rrows),
            left_carry <= 29 * left.len(),
            right_carry <= 29 * right.len(),
            low_total(lrows, place as nat) - left_carry * pow10(place as nat) == low_total(
                rrows,
                place as nat,
            ) - right_carry * pow10(place as nat),
        decreases places - place,
    {
        let left_column = column_sum(left, place);
        let right_column = column_sum(right, place);
        let left_sum = left_column + left_carry;
        let right_sum = right_column + right_carry;
        let ghost unit = pow10(place as nat);
        proof {
            lemma_pow10_positive(place as nat);
            lemma_low_total_step(lrows, place as nat);
            lemma_low_total_step(rrows, place as nat);
        }
        if left_sum % 10 != right_sum % 10 {
            proof {
                let next = (place + 1) as nat;
                lemma_low_total_splits(lrows, next, places as nat);
                lemma_low_total_splits(rrows, next, places as nat);
                let high = high_total(lrows, next, places as nat) - high_total(
                    rrows,
                    next,
                    places as nat,
                );
                let gap = (left_sum - right_sum) + 10 * high;
                assert(rows_total(lrows) - rows_total(rrows) == unit * gap) by (nonlinear_arith)
                    requires
                        rows_total(lrows) == low_total(lrows, next) + (10 * unit) * high_total(
                            lrows,
                            next,
                            places as nat,
                        ),
                        rows_total(rrows) == low_total(rrows, next) + (10 * unit) * high_total(
                            rrows,
                            next,
                            places as nat,
                        ),
                        low_total(lrows, next) == low_total(lrows, place as nat) + left_column
                            * unit,
                        low_total(rrows, next) == low_total(rrows, place as nat) + right_column
                            * unit,
                        low_total(lrows, place as nat) - left_carry * unit == low_total(
                            rrows,
                            place as nat,
                        ) - right_carry * unit,
                        left_sum == left_column + left_carry,
                        right_sum == right_column + right_carry,
                        high == high_total(lrows, next, places as nat) - high_total(
                            rrows,
                            next,
                            places as nat,
                        ),
                        gap == (left_sum - right_sum) + 10 * high,
                ;
                assert(gap != 0);
                assert(unit * gap != 0) by (nonlinear_arith)
                    requires
                        unit > 0,
                        gap != 0,
                ;
            }
            return false;
        }
        proof {
            let left_digit = (left_sum % 10) as int;
            let left_next = (left_sum / 10) as int;
            let right_next = (right_sum / 10) as int;
            assert(left_column * unit - left_next * (10 * unit) == left_digit * unit - left_carry
                * unit) by (nonlinear_arith)
                requires
                    left_column + left_carry == 10 * left_next + left_digit,
            ;
            assert(right_column * unit - right_next * (10 * unit) == left_digit * unit
                - right_carry * unit) by (nonlinear_arith)
                requires
                    right_column + right_carry == 10 * right_next + left_digit,
            ;
        }
        left_carry = left_sum / 10;
        right_carry = right_sum / 10;
        place += 1;
    }
    proof {
        lemma_pow10_positive(places as nat);
        let unit = pow10(places as nat);
        assert((left_carry == right_carry) <==> (left_carry * unit == right_carry * unit))
            by (nonlinear_arith)
            requires
                unit > 0,
        ;
    }
    left_carry == right_carry
}

} // verus!
