//! The constraints of a puzzle, and how they are asserted into a solver.
use vstd::prelude::*;
use crate::constraint::{Constraint, Term};
use crate::counting::lemma_distinct_chars_bounded;
use crate::engine::{
    bool_constraint,
    int_at_least,
    int_at_most,
    int_context,
    int_distinct,
    int_equal,
    int_number,
    int_product,
    int_sum,
    int_term,
    solver_assert,
    solver_assertions,
    solver_context,
};
use crate::text::{char_rows, chars_of_all, texts};
use crate::variables::VariablePool;

verus! {

/// The unknown that stands for the digit of `letter`.
pub open spec fn unknown(letter: char) -> Term {
    Term::Letter(letter)
}

/// That the digit of `letter` is at least 0.
pub open spec fn lower_bound(letter: char) -> Constraint {
    Constraint::AtLeast(unknown(letter), Term::Number(0))
}

/// That the digit of `letter` is at most 9.
pub open spec fn upper_bound(letter: char) -> Constraint {
    Constraint::AtMost(unknown(letter), Term::Number(9))
}

/// That the digit of `letter`, the first letter of a word, is at least 1.
pub open spec fn leading_bound(letter: char) -> Constraint {
    Constraint::AtLeast(unknown(letter), Term::Number(1))
}

/// For each letter in turn, that its digit is at least 0 and that it is at
/// most 9.
pub open spec fn digit_bounds(letters: Seq<char>) -> Seq<Constraint> {
    Seq::new(
        2 * letters.len(),
        |k: int|
            if k % 2 == 0 {
                lower_bound(letters[k / 2])
            } else {
                upper_bound(letters[k / 2])
            },
    )
}

/// For each word in turn, that the digit of its first letter is at least 1.
/// It is said once for each word, also where words share their first letter.
pub open spec fn leading_bounds(words: Seq<Seq<char>>) -> Seq<Constraint> {
    Seq::new(words.len(), |i: int| leading_bound(words[i][0]))
}

/// The unknowns of the letters, in the order of the letters.
pub open spec fn unknowns(letters: Seq<char>) -> Seq<Term> {
    Seq::new(letters.len(), |i: int| unknown(letters[i]))
}

/// That no two letters have the same digit.
pub open spec fn all_distinct(letters: Seq<char>) -> Constraint {
    Constraint::Distinct(unknowns(letters))
}

/// The weight of a place: 1 for the units, and for every further place the
/// weight of the place before it, times 10.
pub open spec fn weight_term(place: nat) -> Term
    decreases place,
{
    if place == 0 {
        Term::Number(1)
    } else {
        Term::Product(Box::new(weight_term((place - 1) as nat)), Box::new(Term::Number(10)))
    }
}

/// What the `places` rightmost letters of `word` are worth: 0, to which one
/// letter after the other is added from the right, each times the weight of
/// its place.
pub open spec fn low_term(word: Seq<char>, places: nat) -> Term
    decreases places,
{
    if places == 0 {
        Term::Number(0)
    } else {
        Term::Sum(
            Box::new(low_term(word, (places - 1) as nat)),
            Box::new(
                Term::Product(
                    Box::new(unknown(word[word.len() - places])),
                    Box::new(weight_term((places - 1) as nat)),
                ),
            ),
        )
    }
}

/// The number that `word` stands for.
pub open spec fn word_term(word: Seq<char>) -> Term {
    low_term(word, word.len())
}

/// The sum of the numbers that `words` stand for: 0, to which one word after
/// the other is added.
pub open spec fn total_term(words: Seq<Seq<char>>) -> Term
    decreases words.len(),
{
    if words.len() == 0 {
        Term::Number(0)
    } else {
        Term::Sum(Box::new(total_term(words.drop_last())), Box::new(word_term(words.last())))
    }
}

/// That the two sides add up to the same total.
pub open spec fn equation(lhs: Seq<Seq<char>>, rhs: Seq<Seq<char>>) -> Constraint {
    Constraint::Equal(total_term(lhs), total_term(rhs))
}

/// The constraints of a puzzle, in the order in which they are asserted: the
/// bounds of every digit, the bound of every leading digit, that all digits
/// differ, and the equation.
pub open spec fn constraint_set(
    letters: Seq<char>,
    lhs: Seq<Seq<char>>,
    rhs: Seq<Seq<char>>,
) -> Seq<Constraint> {
    digit_bounds(letters) + leading_bounds(lhs + rhs) + seq![all_distinct(letters)]
        + seq![equation(lhs, rhs)]
}

/// Whether every letter of `words` stands in `letters`.
pub open spec fn covers(letters: Seq<char>, words: Seq<Seq<char>>) -> bool {
    forall|i: int, j: int|
        0 <= i < words.len() && 0 <= j < words[i].len() ==> letters.contains(
            #[trigger] words[i][j],
        )
}

/// Whether no word of `words` is empty.
pub open spec fn no_empty_word(words: Seq<Seq<char>>) -> bool {
    forall|i: int| 0 <= i < words.len() ==> (#[trigger] words[i]).len() > 0
}

/// Asserts the bounds of every digit.
fn assert_digit_bounds<'ctx>(
    solver: &mut z3::Solver<'ctx>,
    ctx: &'ctx z3::Context,
    variables: &VariablePool<'ctx>,
)
    requires
        solver_context(*old(solver)) == *ctx,
        variables.home() == *ctx,
    ensures
        solver_assertions(*final(solver)) == solver_assertions(*old(solver)) + digit_bounds(
            variables.letters(),
        ),
        solver_context(*final(solver)) == *ctx,
{
    let zero = int_number(ctx, 0);
    let nine = int_number(ctx, 9);
    let terms = variables.terms();
    let ghost before = solver_assertions(*solver);
    let ghost letters = variables.letters();
    let mut index: usize = 0;
    proof {
        assert(before + digit_bounds(letters).take(0) =~= before);
    }
    while index < terms.len()
        invariant
            index <= terms.len(),
            terms.len() == letters.len(),
            forall|i: int|
                0 <= i < terms.len() ==> int_term(#[trigger] terms[i]) == Term::Letter(letters[i]),
            forall|i: int| 0 <= i < terms.len() ==> int_context(#[trigger] terms[i]) == *ctx,
            int_term(zero) == Term::Number(0),
            int_term(nine) == Term::Number(9),
            int_context(zero) == *ctx,
            int_context(nine) == *ctx,
            solver_context(*solver) == *ctx,
            solver_assertions(*solver) == before + digit_bounds(letters).take(2 * index),
        decreases terms.len() - index,
    {
        let lower = int_at_least(&terms[index], &zero);
        solver_assert(solver, &lower);
        let upper = int_at_most(&terms[index], &nine);
        solver_assert(solver, &upper);
        proof {
            let all = digit_bounds(letters);
            assert(all[2 * index] == bool_constraint(lower));
            assert(all[2 * index + 1] == bool_constraint(upper));
            assert(before + all.take(2 * (index + 1)) =~= (before + all.take(2 * index)).push(
                all[2 * index],
            ).push(all[2 * index + 1]));
        }
        index += 1;
    }
    proof {
        let all = digit_bounds(letters);
        assert(all.take(2 * terms.len()) =~= all);
    }
}

/// Asserts, for each word, the bound of its leading digit.
fn assert_leading_bounds<'ctx>(
    solver: &mut z3::Solver<'ctx>,
    ctx: &'ctx z3::Context,
    variables: &VariablePool<'ctx>,
    words: &Vec<Vec<char>>,
)
    requires
        solver_context(*old(solver)) == *ctx,
        variables.home() == *ctx,
        no_empty_word(char_rows(words@)),
        covers(variables.letters(), char_rows(words@)),
    ensures
        solver_assertions(*final(solver)) == solver_assertions(*old(solver)) + leading_bounds(
            char_rows(words@),
        ),
        solver_context(*final(solver)) == *ctx,
{
    let one = int_number(ctx, 1);
    let ghost before = solver_assertions(*solver);
    let ghost rows = char_rows(words@);
    let mut index: usize = 0;
    proof {
        assert(before + leading_bounds(rows).take(0) =~= before);
    }
    while index < words.len()
        invariant
            index <= words.len(),
            rows == char_rows(words@),
            no_empty_word(rows),
            covers(variables.letters(), rows),
            variables.home() == *ctx,
            int_term(one) == Term::Number(1),
            int_context(one) == *ctx,
            solver_context(*solver) == *ctx,
            solver_assertions(*solver) == before + leading_bounds(rows).take(index as int),
        decreases words.len() - index,
    {
        let word = &words[index];
        proof {
            assert(rows[index as int] == word@);
            assert(rows[index as int].len() > 0);
            assert(variables.letters().contains(rows[index as int][0]));
        }
        match variables.variable(word[0]) {
            Some(first) => {
                let bound = int_at_least(first, &one);
                solver_assert(solver, &bound);
                proof {
                    let all = leading_bounds(rows);
                    assert(all[index as int] == bool_constraint(bound));
                    assert(before + all.take(index + 1) =~= (before + all.take(index as int)).push(
                        all[index as int],
                    ));
                }
            },
            None => {
                assert(false);
            },
        }
        index += 1;
    }
    proof {
        let all = leading_bounds(rows);
        assert(all.take(words.len() as int) =~= all);
    }
}

/// The term of the number that `word` stands for.
fn build_word_term<'ctx>(
    ctx: &'ctx z3::Context,
    variables: &VariablePool<'ctx>,
    word: &Vec<char>,
) -> (term: z3::ast::Int<'ctx>)
    requires
        variables.home() == *ctx,
        forall|j: int| 0 <= j < word.len() ==> variables.letters().contains(#[trigger] word[j]),
    ensures
        int_term(term) == word_term(word@),
        int_context(term) == *ctx,
{
    let ten = int_number(ctx, 10);
    let mut term = int_number(ctx, 0);
    let mut multiplier = int_number(ctx, 1);
    let mut places: usize = 0;
    while places < word.len()
        invariant
            places <= word.len(),
            variables.home() == *ctx,
            forall|j: int| 0 <= j < word.len() ==> variables.letters().contains(#[trigger] word[j]),
            int_term(ten) == Term::Number(10),
            int_context(ten) == *ctx,
            int_term(term) == low_term(word@, places as nat),
            int_context(term) == *ctx,
            int_term(multiplier) == weight_term(places as nat),
            int_context(multiplier) == *ctx,
        decreases word.len() - places,
    {
        let letter = word[word.len() - 1 - places];
        match variables.variable(letter) {
            Some(unknown) => {
                let weighted = int_product(ctx, unknown, &multiplier);
                term = int_sum(ctx, &term, &weighted);
                multiplier = int_product(ctx, &multiplier, &ten);
            },
            None => {
                assert(false);
            },
        }
        places += 1;
    }
    term
}

/// The term of the sum of the numbers that `words` stand for.
fn build_total_term<'ctx>(
    ctx: &'ctx z3::Context,
    variables: &VariablePool<'ctx>,
    words: &Vec<Vec<char>>,
) -> (total: z3::ast::Int<'ctx>)
    requires
        variables.home() == *ctx,
        covers(variables.letters(), char_rows(words@)),
    ensures
        int_term(total) == total_term(char_rows(words@)),
        int_context(total) == *ctx,
{
    let ghost rows = char_rows(words@);
    let mut total = int_number(ctx, 0);
    let mut index: usize = 0;
    proof {
        assert(rows.take(0) =~= Seq::<Seq<char>>::empty());
    }
    while index < words.len()
        invariant
            index <= words.len(),
            rows == char_rows(words@),
            variables.home() == *ctx,
            covers(variables.letters(), rows),
            int_term(total) == total_term(rows.take(index as int)),
            int_context(total) == *ctx,
        decreases words.len() - index,
    {
        let word = &words[index];
        proof {
            assert(rows[index as int] == word@);
            assert forall|j: int| 0 <= j < word.len() implies variables.letters().contains(
                #[trigger] word[j],
            ) by {
                assert(rows[index as int][j] == word[j]);
            }
            assert(rows.take(index + 1).drop_last() =~= rows.take(index as int));
            assert(rows.take(index + 1).last() == word@);
        }
        let term = build_word_term(ctx, variables, word);
        total = int_sum(ctx, &total, &term);
        index += 1;
    }
    proof {
        assert(rows.take(words.len() as int) =~= rows);
    }
    total
}

/// Asserts the constraints of the puzzle into `solver`, over the unknowns of
/// `variables`: the bounds of every digit, the bound of every leading digit,
/// that all digits differ, and the equation.
///
/// No word may be empty, and every letter of the words must have an unknown:
/// the first letter of an empty word, and the unknown of a letter that has
/// none, do not exist.
pub fn assert_puzzle<'ctx>(
    solver: &mut z3::Solver<'ctx>,
    ctx: &'ctx z3::Context,
    variables: &VariablePool<'ctx>,
    lhs: &Vec<Vec<char>>,
    rhs: &Vec<Vec<char>>,
)
    requires
        solver_context(*old(solver)) == *ctx,
        variables.home() == *ctx,
        no_empty_word(char_rows(lhs@)),
        no_empty_word(char_rows(rhs@)),
        covers(variables.letters(), char_rows(lhs@)),
        covers(variables.letters(), char_rows(rhs@)),
    ensures
        solver_assertions(*final(solver)) == solver_assertions(*old(solver)) + constraint_set(
            variables.letters(),
            char_rows(lhs@),
            char_rows(rhs@),
        ),
        solver_context(*final(solver)) == *ctx,
{
    let ghost before = solver_assertions(*solver);
    let ghost letters = variables.letters();
    let ghost left = char_rows(lhs@);
    let ghost right = char_rows(rhs@);
    assert_digit_bounds(solver, ctx, variables);
    assert_leading_bounds(solver, ctx, variables, lhs);
    assert_leading_bounds(solver, ctx, variables, rhs);
    let terms = variables.terms();
    let names = variables.letter_list();
    proof {
        lemma_distinct_chars_bounded(names@);
    }
    let different = int_distinct(ctx, terms);
    solver_assert(solver, &different);
    let lhs_sum = build_total_term(ctx, variables, lhs);
    let rhs_sum = build_total_term(ctx, variables, rhs);
    let equal = int_equal(&lhs_sum, &rhs_sum);
    solver_assert(solver, &equal);
    proof {
        assert(Seq::new(terms.len() as nat, |i: int| int_term(terms[i])) =~= unknowns(letters));
        assert(leading_bounds(left + right) =~= leading_bounds(left) + leading_bounds(right));
        assert(solver_assertions(*solver) =~= before + constraint_set(letters, left, right));
    }
}

/// Asserts the constraints of the puzzle into `solver`, over the unknowns of
/// `variables`: first that every digit is at least 0 and at most 9, then for
/// each word that its leading digit is at least 1, then that all digits
/// differ, then that the words of the left side and the words of the right
/// side add up to the same total.
///
/// No word may be empty, and every letter of the words must have an unknown.
pub fn add_constraints<'ctx>(
    solver: &mut z3::Solver<'ctx>,
    ctx: &'ctx z3::Context,
    variables: &VariablePool<'ctx>,
    lhs_words: Vec<&str>,
    rhs_words: Vec<&str>,
)
    requires
        solver_context(*old(solver)) == *ctx,
        variables.home() == *ctx,
        no_empty_word(texts(lhs_words@)),
        no_empty_word(texts(rhs_words@)),
        covers(variables.letters(), texts(lhs_words@)),
        covers(variables.letters(), texts(rhs_words@)),
    ensures
        solver_assertions(*final(solver)) == solver_assertions(*old(solver)) + constraint_set(
            variables.letters(),
            texts(lhs_words@),
            texts(rhs_words@),
        ),
        solver_context(*final(solver)) == *ctx,
{
    let lhs = chars_of_all(&lhs_words);
    let rhs = chars_of_all(&rhs_words);
    assert_puzzle(solver, ctx, variables, &lhs, &rhs);
}

} // verus!

