//! What holds of every puzzle and every solution.
use vstd::prelude::*;
use crate::builder::{all_distinct, constraint_set, digit_bounds, equation, leading_bounds};
use crate::constraint::all_hold;
use crate::counting::lemma_distinct_in_range;
use crate::encoding::{lemma_all_distinct_holds, lemma_all_hold_of_both, lemma_digit_bounds_hold};
use crate::puzzle::{is_solution, occurs};

verus! {

/// A puzzle that has a solution has at most ten different letters: each
/// letter needs a digit of its own, and there are ten digits.
pub proof fn lemma_solution_has_at_most_ten_letters(
    lhs: Seq<Seq<char>>,
    rhs: Seq<Seq<char>>,
    digits: Map<char, int>,
    letters: Seq<char>,
)
    requires
        is_solution(lhs, rhs, digits),
        letters.no_duplicates(),
        forall|i: int| 0 <= i < letters.len() ==> occurs(lhs + rhs, #[trigger] letters[i]),
    ensures
        letters.len() <= 10,
{
    let values = Seq::new(letters.len(), |i: int| digits[letters[i]]);
    assert forall|i: int| 0 <= i < values.len() implies 0 <= #[trigger] values[i] < 10 by {
        assert(occurs(lhs + rhs, letters[i]));
        assert(digits.dom().contains(letters[i]));
    }
    assert forall|i: int, j: int|
        0 <= i < values.len() && 0 <= j < values.len() && i != j implies values[i]
        != values[j] by {
        assert(occurs(lhs + rhs, letters[i]));
        assert(occurs(lhs + rhs, letters[j]));
        assert(digits.dom().contains(letters[i]));
        assert(digits.dom().contains(letters[j]));
        assert(letters[i] != letters[j]);
    }
    lemma_distinct_in_range(values, 10);
}

/// A puzzle with more than ten different letters has no solution.
pub proof fn lemma_more_than_ten_letters_have_no_solution(
    lhs: Seq<Seq<char>>,
    rhs: Seq<Seq<char>>,
    digits: Map<char, int>,
    letters: Seq<char>,
)
    requires
        letters.no_duplicates(),
        forall|i: int| 0 <= i < letters.len() ==> occurs(lhs + rhs, #[trigger] letters[i]),
        letters.len() > 10,
    ensures
        !is_solution(lhs, rhs, digits),
{
    if is_solution(lhs, rhs, digits) {
        lemma_solution_has_at_most_ten_letters(lhs, rhs, digits, letters);
    }
}

/// The constraints over more than ten letters cannot all be met, whatever the
/// words are: the solver is handed a question that has no answer.
pub proof fn lemma_constraints_over_more_than_ten_letters_cannot_hold(
    letters: Seq<char>,
    lhs: Seq<Seq<char>>,
    rhs: Seq<Seq<char>>,
    digits: Map<char, int>,
)
    requires
        letters.no_duplicates(),
        letters.len() > 10,
    ensures
        !all_hold(constraint_set(letters, lhs, rhs), digits),
{
    let bounds = digit_bounds(letters);
    let leading = leading_bounds(lhs + rhs);
    let different = seq![all_distinct(letters)];
    let equal = seq![equation(lhs, rhs)];
    if all_hold(constraint_set(letters, lhs, rhs), digits) {
        lemma_all_hold_of_both(bounds + leading + different, equal, digits);
        lemma_all_hold_of_both(bounds + leading, different, digits);
        lemma_all_hold_of_both(bounds, leading, digits);
        assert(different[0] == all_distinct(letters));
        lemma_digit_bounds_hold(letters, digits);
        lemma_all_distinct_holds(letters, digits);
        let values = Seq::new(letters.len(), |i: int| digits[letters[i]]);
        assert forall|i: int| 0 <= i < values.len() implies 0 <= #[trigger] values[i] < 10 by {
            assert(0 <= digits[letters[i]] <= 9);
        }
        assert forall|i: int, j: int|
            0 <= i < values.len() && 0 <= j < values.len() && i != j implies values[i]
            != values[j] by {
            if i < j {
                assert(digits[letters[i]] != digits[letters[j]]);
            } else {
                assert(digits[letters[j]] != digits[letters[i]]);
            }
        }
        lemma_distinct_in_range(values, 10);
    }
}

} // verus!
