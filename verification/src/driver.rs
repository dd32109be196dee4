//! Solving a puzzle: the input is checked, the constraints are handed to the
//! solver, and what the solver answers is checked before it is returned.
use vstd::prelude::*;
use crate::assignment::{pairing, Assignment};
use crate::builder::{assert_puzzle, constraint_set, covers, no_empty_word};
use crate::checker::{check_solution, lemma_occurs_in_both};
use crate::engine::{
    int_as_i64,
    int_context,
    model_context,
    model_value,
    new_config,
    new_context,
    new_solver,
    solver_assertions,
    solver_check,
    solver_context,
    solver_model,
};
use crate::laws::lemma_solution_has_at_most_ten_letters;
use crate::letters::{distinct_letters, lemma_gather_of_distinct, unique_letters};
use crate::puzzle::{is_letter, is_solution, occurs, valid_input, valid_side, valid_word};
use crate::text::{char_rows, chars_of_all, texts};
use crate::variables::{generate_variables, VariablePool};

verus! {

/// Why a puzzle was not solved.
#[derive(Debug, Clone, Copy, PartialEq, Eq)]
pub enum SolveError {
    /// A side has no word, a word is empty, or a word holds a character that
    /// is not a letter.
    InvalidInput,
    /// The solver called the puzzle satisfiable and then gave no model, no
    /// value for a letter, or values that do not solve the puzzle.
    EngineInternalError,
}

/// What solving a puzzle ends in.
#[derive(Debug)]
pub enum Outcome {
    /// The digits of a solution.
    Solution(Assignment),
    /// The solver found the puzzle to have no solution, or could not decide.
    NoSolution,
}

/// What the solver answered.
#[derive(Debug)]
pub enum EngineReport {
    /// The constraints cannot all be met.
    Unsatisfiable,
    /// The solver could not decide.
    Undecided,
    /// The constraints can be met, but the solver gave no model.
    ModelMissing,
    /// The constraints can be met. For each letter in turn, the value that
    /// the model gives it, where it gave one that is an integer of 64 bits.
    Model(Vec<Option<i64>>),
}

/// Whether `word` is not empty and made of letters.
pub fn check_word(word: &Vec<char>) -> (ok: bool)
    ensures
        ok == valid_word(word@),
{
    if word.len() == 0 {
        return false;
    }
    let mut index: usize = 0;
    while index < word.len()
        invariant
            index <= word.len(),
            forall|j: int| 0 <= j < index ==> is_letter(#[trigger] word[j]),
        decreases word.len() - index,
    {
        let c = word[index];
        if c == '\0' || !c.is_alphabetic() {
            return false;
        }
        index += 1;
    }
    true
}

/// Whether there is at least one word, and every word is admitted.
pub fn check_side(words: &Vec<Vec<char>>) -> (ok: bool)
    ensures
        ok == valid_side(char_rows(words@)),
{
    if words.len() == 0 {
        return false;
    }
    let ghost rows = char_rows(words@);
    let mut index: usize = 0;
    while index < words.len()
        invariant
            index <= words.len(),
            rows == char_rows(words@),
            forall|i: int| 0 <= i < index ==> valid_word(#[trigger] rows[i]),
        decreases words.len() - index,
    {
        assert(rows[index as int] == words[index as int]@);
        if !check_word(&words[index]) {
            return false;
        }
        index += 1;
    }
    true
}

/// Whether the values of a model are all there and all decimal digits.
pub open spec fn digits_read(values: Seq<Option<i64>>) -> bool {
    forall|i: int|
        0 <= i < values.len() ==> (#[trigger] values[i]) is Some && 0 <= values[i]->0 <= 9
}

/// The values of a model, as digits.
pub open spec fn as_digits(values: Seq<Option<i64>>) -> Seq<u8> {
    Seq::new(values.len(), |i: int| values[i]->0 as u8)
}

/// Whether the values that a model gives the letters are accepted: there is
/// one for each letter, each is a decimal digit, and together they solve the
/// puzzle.
pub open spec fn accepted(
    lhs: Seq<Seq<char>>,
    rhs: Seq<Seq<char>>,
    letters: Seq<char>,
    values: Seq<Option<i64>>,
) -> bool {
    &&& values.len() == letters.len()
    &&& letters.no_duplicates()
    &&& digits_read(values)
    &&& is_solution(lhs, rhs, pairing(letters, as_digits(values)))
}

/// What is returned for an answer of the solver.
fn interpret_rows(
    lhs: &Vec<Vec<char>>,
    rhs: &Vec<Vec<char>>,
    letters: Vec<char>,
    report: EngineReport,
) -> (result: Result<Outcome, SolveError>)
    ensures
        report is Unsatisfiable || report is Undecided ==> result matches Ok(Outcome::NoSolution),
        report is ModelMissing ==> result matches Err(SolveError::EngineInternalError),
        report matches EngineReport::Model(values) ==> if accepted(
            char_rows(lhs@),
            char_rows(rhs@),
            letters@,
            values@,
        ) {
            result matches Ok(Outcome::Solution(assignment)) && assignment@ == pairing(
                letters@,
                as_digits(values@),
            ) && assignment.keys() == letters@
        } else {
            result matches Err(SolveError::EngineInternalError)
        },
{
    let values = match report {
        EngineReport::Unsatisfiable => {
            return Ok(Outcome::NoSolution);
        },
        EngineReport::Undecided => {
            return Ok(Outcome::NoSolution);
        },
        EngineReport::ModelMissing => {
            return Err(SolveError::EngineInternalError);
        },
        EngineReport::Model(values) => values,
    };
    if values.len() != letters.len() {
        return Err(SolveError::EngineInternalError);
    }
    let mut digits: Vec<u8> = Vec::new();
    let mut index: usize = 0;
    while index < values.len()
        invariant
            index <= values.len(),
            digits.len() == index,
            report == EngineReport::Model(values),
            forall|i: int|
                0 <= i < index ==> (#[trigger] values[i]) is Some && 0 <= values[i]->0 <= 9,
            forall|i: int| 0 <= i < index ==> #[trigger] digits[i] == values[i]->0,
        decreases values.len() - index,
    {
        match values[index] {
            Some(value) => {
                if value < 0 || value > 9 {
                    return Err(SolveError::EngineInternalError);
                }
                digits.push(value as u8);
            },
            None => {
                return Err(SolveError::EngineInternalError);
            },
        }
        index += 1;
    }
    assert(digits@ =~= as_digits(values@));
    match Assignment::new(letters, digits) {
        Some(assignment) => {
            if check_solution(lhs, rhs, &assignment) {
                Ok(Outcome::Solution(assignment))
            } else {
                Err(SolveError::EngineInternalError)
            }
        },
        None => Err(SolveError::EngineInternalError),
    }
}

/// What is returned for an answer of the solver to the puzzle of the two
/// sides, `letters` being the letters that the values of a model belong to.
///
/// Where the solver found no solution or could not decide, there is no
/// solution. A model is accepted where it gives every letter a decimal digit
/// and these digits solve the puzzle; anything else that comes with the answer
/// that the puzzle can be solved is an error of the solver.
pub fn interpret(
    lhs_words: &Vec<&str>,
    rhs_words: &Vec<&str>,
    letters: Vec<char>,
    report: EngineReport,
) -> (result: Result<Outcome, SolveError>)
    ensures
        report is Unsatisfiable || report is Undecided ==> result matches Ok(Outcome::NoSolution),
        report is ModelMissing ==> result matches Err(SolveError::EngineInternalError),
        report matches EngineReport::Model(values) ==> if accepted(
            texts(lhs_words@),
            texts(rhs_words@),
            letters@,
            values@,
        ) {
            result matches Ok(Outcome::Solution(assignment)) && assignment@ == pairing(
                letters@,
                as_digits(values@),
            ) && assignment.keys() == letters@
        } else {
            result matches Err(SolveError::EngineInternalError)
        },
{
    let lhs = chars_of_all(lhs_words);
    let rhs = chars_of_all(rhs_words);
    interpret_rows(&lhs, &rhs, letters, report)
}

/// For each unknown in turn, the value that the model gives it, where it
/// gives one that is an integer of 64 bits.
fn read_model<'ctx>(model: &z3::Model<'ctx>, variables: &VariablePool<'ctx>) -> (values: Vec<
    Option<i64>,
>)
    requires
        model_context(*model) == variables.home(),
    ensures
        values.len() == variables.letters().len(),
{
    let terms = variables.terms();
    let mut values: Vec<Option<i64>> = Vec::new();
    let mut index: usize = 0;
    while index < terms.len()
        invariant
            index <= terms.len(),
            values.len() == index,
            terms.len() == variables.letters().len(),
            forall|i: int|
                0 <= i < terms.len() ==> int_context(#[trigger] terms[i])
                    == model_context(*model),
        decreases terms.len() - index,
    {
        let value = match model_value(model, &terms[index]) {
            Some(numeral) => int_as_i64(&numeral),
            None => None,
        };
        values.push(value);
        index += 1;
    }
    values
}

/// Puts the puzzle before `solver`: makes one unknown for each of `letters`
/// and asserts the constraints of the puzzle over them.
pub fn pose_puzzle<'ctx>(
    solver: &mut z3::Solver<'ctx>,
    ctx: &'ctx z3::Context,
    letters: &Vec<char>,
    lhs: &Vec<Vec<char>>,
    rhs: &Vec<Vec<char>>,
) -> (variables: VariablePool<'ctx>)
    requires
        solver_context(*old(solver)) == *ctx,
        letters@.no_duplicates(),
        forall|i: int| 0 <= i < letters.len() ==> letters[i] != '\0',
        no_empty_word(char_rows(lhs@)),
        no_empty_word(char_rows(rhs@)),
        covers(letters@, char_rows(lhs@)),
        covers(letters@, char_rows(rhs@)),
    ensures
        solver_assertions(*final(solver)) == solver_assertions(*old(solver)) + constraint_set(
            letters@,
            char_rows(lhs@),
            char_rows(rhs@),
        ),
        solver_context(*final(solver)) == *ctx,
        variables.letters() == letters@,
        variables.home() == *ctx,
{
    let variables = generate_variables(ctx, letters.clone());
    proof {
        lemma_gather_of_distinct(letters@);
    }
    assert_puzzle(solver, ctx, &variables, lhs, rhs);
    variables
}

/// Asks `solver` once whether its constraints can be met, and reports its
/// answer; where they can, with the values that its model gives the unknowns
/// of `variables`, in their order.
pub fn ask<'ctx>(solver: &z3::Solver<'ctx>, variables: &VariablePool<'ctx>) -> (report:
    EngineReport)
    requires
        solver_context(*solver) == variables.home(),
    ensures
        report matches EngineReport::Model(values) ==> values.len() == variables.letters().len(),
{
    match solver_check(solver) {
        z3::SatResult::Unsat => EngineReport::Unsatisfiable,
        z3::SatResult::Unknown => EngineReport::Undecided,
        z3::SatResult::Sat => match solver_model(solver) {
            Some(model) => EngineReport::Model(read_model(&model, variables)),
            None => EngineReport::ModelMissing,
        },
    }
}

/// Hands the puzzle to a solver of its own and reports what it answers: the
/// solver is given the constraints of the puzzle over one unknown for each of
/// `letters` and nothing else, and is asked once.
pub fn consult_engine(letters: &Vec<char>, lhs: &Vec<Vec<char>>, rhs: &Vec<Vec<char>>) -> (report:
    EngineReport)
    requires
        letters@.no_duplicates(),
        forall|i: int| 0 <= i < letters.len() ==> letters[i] != '\0',
        no_empty_word(char_rows(lhs@)),
        no_empty_word(char_rows(rhs@)),
        covers(letters@, char_rows(lhs@)),
        covers(letters@, char_rows(rhs@)),
    ensures
        report matches EngineReport::Model(values) ==> values.len() == letters.len(),
{
    let config = new_config();
    let ctx = new_context(&config);
    let mut solver = new_solver(&ctx);
    let variables = pose_puzzle(&mut solver, &ctx, letters, lhs, rhs);
    assert(solver_assertions(solver) =~= constraint_set(
        letters@,
        char_rows(lhs@),
        char_rows(rhs@),
    ));
    ask(&solver, &variables)
}

/// Solves the puzzle in which the numbers of `lhs_words` add up to the same
/// total as the numbers of `rhs_words`.
///
/// The input is refused where a side has no word, a word is empty, or a word
/// holds a character that is not a letter. Otherwise the solver is asked.
/// Where it finds a solution, the solution is checked and returned: it gives a
/// decimal digit to each letter of the puzzle, in the order in which the
/// letters first appear, different digits to different letters and to no first
/// letter the digit 0, and makes the two sides add up to the same total. Where
/// the solver finds none or cannot decide, there is none. Which solution is
/// found, where there are several, is the solver's choice.
pub fn solve_cryptarithmetic(lhs_words: Vec<&str>, rhs_words: Vec<&str>) -> (result: Result<
    Outcome,
    SolveError,
>)
    ensures
        result matches Err(SolveError::InvalidInput) <==> !valid_input(
            texts(lhs_words@),
            texts(rhs_words@),
        ),
        result matches Ok(Outcome::Solution(assignment)) ==> is_solution(
            texts(lhs_words@),
            texts(rhs_words@),
            assignment@,
        ) && assignment.keys() == distinct_letters(texts(lhs_words@) + texts(rhs_words@)),
        distinct_letters(texts(lhs_words@) + texts(rhs_words@)).len() > 10 ==> !(result matches Ok(
            Outcome::Solution(_),
        )),
{
    let lhs = chars_of_all(&lhs_words);
    let rhs = chars_of_all(&rhs_words);
    if !check_side(&lhs) || !check_side(&rhs) {
        return Err(SolveError::InvalidInput);
    }
    let mut all_words = lhs.clone();
    let mut rhs_copy = rhs.clone();
    all_words.append(&mut rhs_copy);
    let letters = unique_letters(&all_words);
    let ghost left = char_rows(lhs@);
    let ghost right = char_rows(rhs@);
    proof {
        assert(char_rows(all_words@) =~= left + right);
        assert forall|i: int| 0 <= i < letters.len() implies letters[i] != '\0' by {
            assert(letters@.contains(letters[i]));
            let c = letters[i];
            lemma_occurs_in_both(left, right, c);
            if occurs(left, c) {
                let (w, j) = choose|w: int, j: int|
                    0 <= w < left.len() && 0 <= j < left[w].len() && #[trigger] left[w][j] == c;
                assert(valid_word(left[w]));
            } else {
                let (w, j) = choose|w: int, j: int|
                    0 <= w < right.len() && 0 <= j < right[w].len() && #[trigger] right[w][j]
                        == c;
                assert(valid_word(right[w]));
            }
        }
        assert forall|i: int, j: int| 0 <= i < left.len() && 0 <= j < left[i].len() implies letters@.contains(
            #[trigger] left[i][j],
        ) by {
            lemma_occurs_in_both(left, right, left[i][j]);
        }
        assert forall|i: int, j: int|
            0 <= i < right.len() && 0 <= j < right[i].len() implies letters@.contains(
            #[trigger] right[i][j],
        ) by {
            lemma_occurs_in_both(left, right, right[i][j]);
        }
        assert forall|i: int| 0 <= i < left.len() implies (#[trigger] left[i]).len() > 0 by {
            assert(valid_word(left[i]));
        }
        assert forall|i: int| 0 <= i < right.len() implies (#[trigger] right[i]).len() > 0 by {
            assert(valid_word(right[i]));
        }
    }
    let report = consult_engine(&letters, &lhs, &rhs);
    let ghost names = letters@;
    let result = interpret_rows(&lhs, &rhs, letters, report);
    proof {
        if result matches Ok(Outcome::Solution(_)) {
            let digits = result->Ok_0->Solution_0@;
            assert forall|i: int| 0 <= i < names.len() implies occurs(
                left + right,
                #[trigger] names[i],
            ) by {
                assert(names.contains(names[i]));
            }
            lemma_solution_has_at_most_ten_letters(left, right, digits, names);
        }
    }
    result
}

} // verus!
