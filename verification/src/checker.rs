//! The test that an assignment solves a puzzle.
use vstd::prelude::*;
use crate::assignment::Assignment;
use crate::numeral::{rows_ints, totals_agree};
use crate::puzzle::{digit_rows, is_solution, letters_of, no_leading_zero, occurs};
use crate::text::{char_rows, chars_of_all, texts};

verus! {

/// A letter occurs in two lists of words taken together where it occurs in
/// one of them.
pub proof fn lemma_occurs_in_both(lhs: Seq<Seq<char>>, rhs: Seq<Seq<char>>, letter: char)
    ensures
        occurs(lhs + rhs, letter) <==> occurs(lhs, letter) || occurs(rhs, letter),
{
    let both = lhs + rhs;
    if occurs(lhs, letter) {
        let (i, j) = choose|i: int, j: int|
            0 <= i < lhs.len() && 0 <= j < lhs[i].len() && #[trigger] lhs[i][j] == letter;
        assert(both[i][j] == letter);
    }
    if occurs(rhs, letter) {
        let (i, j) = choose|i: int, j: int|
            0 <= i < rhs.len() && 0 <= j < rhs[i].len() && #[trigger] rhs[i][j] == letter;
        assert(both[lhs.len() + i][j] == letter);
    }
    if occurs(both, letter) {
        let (i, j) = choose|i: int, j: int|
            0 <= i < both.len() && 0 <= j < both[i].len() && #[trigger] both[i][j] == letter;
        if i < lhs.len() {
            assert(lhs[i][j] == letter);
        } else {
            assert(rhs[i - lhs.len()][j] == letter);
        }
    }
}

/// Whether `letter` stands somewhere in one of `words`.
pub fn occurs_in(words: &Vec<Vec<char>>, letter: char) -> (found: bool)
    ensures
        found == occurs(char_rows(words@), letter),
{
    let ghost rows = char_rows(words@);
    let mut index: usize = 0;
    while index < words.len()
        invariant
            index <= words.len(),
            rows == char_rows(words@),
            forall|i: int, j: int|
                0 <= i < index && 0 <= j < rows[i].len() ==> #[trigger] rows[i][j] != letter,
        decreases words.len() - index,
    {
        let word = &words[index];
        let mut at: usize = 0;
        assert(rows[index as int] == word@);
        while at < word.len()
            invariant
                at <= word.len(),
                index < rows.len(),
                rows == char_rows(words@),
                rows[index as int] == word@,
                forall|j: int| 0 <= j < at ==> word[j] != letter,
            decreases word.len() - at,
        {
            if word[at] == letter {
                assert(rows[index as int][at as int] == letter);
                return true;
            }
            at += 1;
        }
        assert(rows[index as int] == word@);
        index += 1;
    }
    false
}

/// The digits of the letters of each word, if every letter of the words has
/// one.
pub fn substitute_all(assignment: &Assignment, words: &Vec<Vec<char>>) -> (rows: Option<
    Vec<Vec<u8>>,
>)
    ensures
        rows is Some <==> forall|letter: char|
            occurs(char_rows(words@), letter) ==> assignment@.dom().contains(letter),
        rows matches Some(digits) ==> rows_ints(digits@) == digit_rows(
            char_rows(words@),
            assignment@,
        ) && forall|i: int, j: int|
            0 <= i < digits.len() && 0 <= j < digits[i].len() ==> #[trigger] digits[i][j] <= 9,
{
    let ghost texts = char_rows(words@);
    let mut rows: Vec<Vec<u8>> = Vec::new();
    let mut index: usize = 0;
    while index < words.len()
        invariant
            index <= words.len(),
            texts == char_rows(words@),
            rows.len() == index,
            forall|i: int, j: int|
                0 <= i < index && 0 <= j < rows[i].len() ==> #[trigger] rows[i][j] <= 9,
            forall|i: int, j: int|
                0 <= i < index && 0 <= j < texts[i].len() ==> assignment@.dom().contains(
                    #[trigger] texts[i][j],
                ),
            forall|i: int|
                0 <= i < index ==> rows_ints(rows@)[i] == #[trigger] digit_rows(
                    texts,
                    assignment@,
                )[i],
        decreases words.len() - index,
    {
        let word = &words[index];
        assert(texts[index as int] == word@);
        match assignment.substitute(word) {
            Some(row) => {
                let ghost before = rows@;
                rows.push(row);
                proof {
                    assert forall|i: int| 0 <= i < index + 1 implies rows_ints(rows@)[i]
                        == #[trigger] digit_rows(texts, assignment@)[i] by {
                        if i < index {
                            assert(rows@[i] == before[i]);
                            assert(rows_ints(before)[i] == digit_rows(texts, assignment@)[i]);
                        }
                    }
                }
            },
            None => {
                proof {
                    let j = choose|j: int|
                        0 <= j < word.len() && !assignment@.dom().contains(#[trigger] word[j]);
                    assert(texts[index as int][j] == word[j]);
                    assert(occurs(texts, word[j]));
                }
                return None;
            },
        }
        index += 1;
    }
    proof {
        assert(rows_ints(rows@) =~= digit_rows(texts, assignment@));
        assert forall|letter: char| occurs(texts, letter) implies assignment@.dom().contains(
            letter,
        ) by {
            let (i, j) = choose|i: int, j: int|
                0 <= i < texts.len() && 0 <= j < texts[i].len() && #[trigger] texts[i][j]
                    == letter;
        }
    }
    Some(rows)
}

/// Whether no row begins with the digit 0.
pub fn no_row_leads_with_zero(rows: &Vec<Vec<u8>>) -> (none: bool)
    ensures
        none == forall|i: int|
            0 <= i < rows.len() && (#[trigger] rows[i]).len() > 0 ==> rows[i][0] != 0,
{
    let mut index: usize = 0;
    while index < rows.len()
        invariant
            index <= rows.len(),
            forall|i: int| 0 <= i < index && (#[trigger] rows[i]).len() > 0 ==> rows[i][0] != 0,
        decreases rows.len() - index,
    {
        if rows[index].len() > 0 && rows[index][0] == 0 {
            return false;
        }
        index += 1;
    }
    true
}

/// Whether `assignment` solves the puzzle of the two sides.
pub fn check_solution(lhs: &Vec<Vec<char>>, rhs: &Vec<Vec<char>>, assignment: &Assignment) -> (ok:
    bool)
    ensures
        ok == is_solution(char_rows(lhs@), char_rows(rhs@), assignment@),
{
    let ghost left = char_rows(lhs@);
    let ghost right = char_rows(rhs@);
    let ghost digits = assignment@;
    proof {
        assert forall|letter: char|
            occurs(left + right, letter) <==> occurs(left, letter) || occurs(right, letter) by {
            lemma_occurs_in_both(left, right, letter);
        }
    }
    let lhs_rows = match substitute_all(assignment, lhs) {
        Some(rows) => rows,
        None => {
            proof {
                let letter = choose|letter: char|
                    occurs(left, letter) && !digits.dom().contains(letter);
                assert(letters_of(left + right).contains(letter));
            }
            return false;
        },
    };
    let rhs_rows = match substitute_all(assignment, rhs) {
        Some(rows) => rows,
        None => {
            proof {
                let letter = choose|letter: char|
                    occurs(right, letter) && !digits.dom().contains(letter);
                assert(letters_of(left + right).contains(letter));
            }
            return false;
        },
    };
    let letters = assignment.letters();
    let mut index: usize = 0;
    while index < letters.len()
        invariant
            index <= letters.len(),
            left == char_rows(lhs@),
            right == char_rows(rhs@),
            digits == assignment@,
            forall|letter: char| letters@.contains(letter) <==> digits.dom().contains(letter),
            forall|i: int|
                0 <= i < index ==> occurs(left, #[trigger] letters[i]) || occurs(right, letters[i]),
        decreases letters.len() - index,
    {
        let letter = letters[index];
        if !occurs_in(lhs, letter) && !occurs_in(rhs, letter) {
            proof {
                assert(letters@.contains(letter));
                lemma_occurs_in_both(left, right, letter);
                assert(digits.dom().contains(letter));
                assert(!letters_of(left + right).contains(letter));
            }
            return false;
        }
        index += 1;
    }
    proof {
        assert forall|letter: char| digits.dom().contains(letter) implies letters_of(
            left + right,
        ).contains(letter) by {
            assert(letters@.contains(letter));
            let i = choose|i: int| 0 <= i < letters.len() && letters[i] == letter;
            assert(occurs(left, letters[i]) || occurs(right, letters[i]));
            lemma_occurs_in_both(left, right, letter);
        }
        assert(digits.dom() =~= letters_of(left + right));
    }
    if !assignment.digits_differ() {
        return false;
    }
    let lhs_leads = no_row_leads_with_zero(&lhs_rows);
    let rhs_leads = no_row_leads_with_zero(&rhs_rows);
    proof {
        let both = left + right;
        let lints = rows_ints(lhs_rows@);
        let rints = rows_ints(rhs_rows@);
        assert(lints.len() == lhs_rows.len());
        assert(rints.len() == rhs_rows.len());
        assert(digit_rows(left, digits).len() == left.len());
        assert(digit_rows(right, digits).len() == right.len());
        assert forall|i: int| 0 <= i < left.len() implies (#[trigger] lhs_rows[i]).len()
            == left[i].len() && (left[i].len() > 0 ==> lhs_rows[i][0] == digits[left[i][0]]) by {
            assert(lints[i] == digit_rows(left, digits)[i]);
            assert(lints[i].len() == left[i].len());
            if left[i].len() > 0 {
                assert(lints[i][0] == digits[left[i][0]]);
            }
        }
        assert forall|i: int| 0 <= i < right.len() implies (#[trigger] rhs_rows[i]).len()
            == right[i].len() && (right[i].len() > 0 ==> rhs_rows[i][0] == digits[right[i][0]]) by {
            assert(rints[i] == digit_rows(right, digits)[i]);
            assert(rints[i].len() == right[i].len());
            if right[i].len() > 0 {
                assert(rints[i][0] == digits[right[i][0]]);
            }
        }
        assert(lints.len() == left.len());
        assert(rints.len() == right.len());
        if lhs_leads && rhs_leads {
            assert forall|i: int| 0 <= i < both.len() && (#[trigger] both[i]).len() > 0 implies digits[both[i][0]]
                != 0 by {
                if i < left.len() {
                    assert(both[i] == left[i]);
                    assert(lhs_rows[i].len() > 0);
                } else {
                    assert(both[i] == right[i - left.len()]);
                    assert(rhs_rows[i - left.len()].len() > 0);
                }
            }
        } else if !lhs_leads {
            let i = choose|i: int|
                0 <= i < lhs_rows.len() && (#[trigger] lhs_rows[i]).len() > 0 && lhs_rows[i][0]
                    == 0;
            assert(both[i] == left[i]);
            assert(!no_leading_zero(both, digits));
        } else {
            let i = choose|i: int|
                0 <= i < rhs_rows.len() && (#[trigger] rhs_rows[i]).len() > 0 && rhs_rows[i][0]
                    == 0;
            assert(both[left.len() + i] == right[i]);
            assert(!no_leading_zero(both, digits));
        }
    }
    if !lhs_leads || !rhs_leads {
        return false;
    }
    totals_agree(&lhs_rows, &rhs_rows)
}

/// Whether `assignment` solves the puzzle: it gives a digit to each letter of
/// the words and to nothing else, different digits to different letters, to no
/// first letter the digit 0, and the numbers of the left words add up to the
/// same total as the numbers of the right words. Words of any length are
/// compared exactly.
pub fn solves(lhs_words: &Vec<&str>, rhs_words: &Vec<&str>, assignment: &Assignment) -> (ok: bool)
    ensures
        ok == is_solution(texts(lhs_words@), texts(rhs_words@), assignment@),
{
    let lhs = chars_of_all(lhs_words);
    let rhs = chars_of_all(rhs_words);
    check_solution(&lhs, &rhs, assignment)
}

} // verus!
