//! The constraints of a puzzle say what a solution is, no more and no less.
use vstd::prelude::*;
use crate::builder::{
    all_distinct,
    constraint_set,
    digit_bounds,
    equation,
    leading_bounds,
    low_term,
    no_empty_word,
    total_term,
    unknown,
    unknowns,
    weight_term,
    word_term,
};
use crate::constraint::{all_hold, holds, term_value, Constraint};
use crate::numeral::{low_value, pow10, rows_total};
use crate::puzzle::{
    digit_row,
    digit_rows,
    digits_distinct,
    digits_in_range,
    is_solution,
    letters_of,
    no_leading_zero,
    occurs,
    word_value,
    words_total,
};

verus! {

/// The weight of a place is ten to the power of the place.
pub proof fn lemma_weight_term_value(place: nat, digits: Map<char, int>)
    ensures
        term_value(weight_term(place), digits) == pow10(place),
    decreases place,
{
    reveal_with_fuel(term_value, 2);
    if place > 0 {
        lemma_weight_term_value((place - 1) as nat, digits);
    }
}

/// The term of the rightmost letters of a word is worth what their digits are
/// worth.
pub proof fn lemma_low_term_value(word: Seq<char>, places: nat, digits: Map<char, int>)
    requires
        places <= word.len(),
    ensures
        term_value(low_term(word, places), digits) == low_value(digit_row(word, digits), places),
    decreases places,
{
    reveal_with_fuel(term_value, 3);
    if places > 0 {
        let before = (places - 1) as nat;
        lemma_low_term_value(word, before, digits);
        lemma_weight_term_value(before, digits);
        assert(term_value(unknown(word[word.len() - places]), digits) == digits[word[word.len()
            - places]]);
        assert(crate::numeral::place(digit_row(word, digits), before) == digits[word[word.len()
            - places]]);
    }
}

/// The term of a word is worth the number that the word stands for.
pub proof fn lemma_word_term_value(word: Seq<char>, digits: Map<char, int>)
    ensures
        term_value(word_term(word), digits) == word_value(word, digits),
{
    lemma_low_term_value(word, word.len(), digits);
}

/// The term of the total of some words is worth the sum of the numbers that
/// the words stand for.
pub proof fn lemma_total_term_value(words: Seq<Seq<char>>, digits: Map<char, int>)
    ensures
        term_value(total_term(words), digits) == words_total(words, digits),
    decreases words.len(),
{
    if words.len() > 0 {
        lemma_total_term_value(words.drop_last(), digits);
        lemma_word_term_value(words.last(), digits);
        assert(digit_rows(words, digits).drop_last() =~= digit_rows(words.drop_last(), digits));
        assert(digit_rows(words, digits).last() == digit_row(words.last(), digits));
    } else {
        assert(rows_total(digit_rows(words, digits)) == 0);
    }
}

/// The digit bounds hold where every letter has a decimal digit.
pub proof fn lemma_digit_bounds_hold(letters: Seq<char>, digits: Map<char, int>)
    ensures
        all_hold(digit_bounds(letters), digits) <==> forall|i: int|
            0 <= i < letters.len() ==> 0 <= digits[#[trigger] letters[i]] <= 9,
{
    let bounds = digit_bounds(letters);
    if all_hold(bounds, digits) {
        assert forall|i: int| 0 <= i < letters.len() implies 0 <= digits[#[trigger] letters[i]]
            <= 9 by {
            assert(holds(bounds[2 * i], digits));
            assert(holds(bounds[2 * i + 1], digits));
        }
    }
    if forall|i: int| 0 <= i < letters.len() ==> 0 <= digits[#[trigger] letters[i]] <= 9 {
        assert forall|k: int| 0 <= k < bounds.len() implies holds(#[trigger] bounds[k], digits) by {
            assert(0 <= digits[letters[k / 2]] <= 9);
        }
    }
}

/// The leading bounds hold where the first letter of every word has a digit
/// of at least 1.
pub proof fn lemma_leading_bounds_hold(words: Seq<Seq<char>>, digits: Map<char, int>)
    ensures
        all_hold(leading_bounds(words), digits) <==> forall|i: int|
            0 <= i < words.len() ==> digits[(#[trigger] words[i])[0]] >= 1,
{
    let bounds = leading_bounds(words);
    if all_hold(bounds, digits) {
        assert forall|i: int| 0 <= i < words.len() implies digits[(#[trigger] words[i])[0]]
            >= 1 by {
            assert(holds(bounds[i], digits));
        }
    }
    if forall|i: int| 0 <= i < words.len() ==> digits[(#[trigger] words[i])[0]] >= 1 {
        assert forall|k: int| 0 <= k < bounds.len() implies holds(#[trigger] bounds[k], digits) by {
            assert(digits[words[k][0]] >= 1);
        }
    }
}

/// The constraint that all digits differ holds where no two letters have the
/// same digit.
pub proof fn lemma_all_distinct_holds(letters: Seq<char>, digits: Map<char, int>)
    ensures
        holds(all_distinct(letters), digits) <==> forall|i: int, j: int|
            0 <= i < j < letters.len() ==> digits[#[trigger] letters[i]] != digits[#[trigger] letters[j]],
{
    let terms = unknowns(letters);
    assert(all_distinct(letters)->Distinct_0 == terms);
    if holds(all_distinct(letters), digits) {
        assert forall|i: int, j: int| 0 <= i < j < letters.len() implies digits[#[trigger] letters[i]] != digits[#[trigger] letters[j]] by {
            assert(term_value(terms[i], digits) != term_value(terms[j], digits));
        }
    }
    if forall|i: int, j: int|
        0 <= i < j < letters.len() ==> digits[#[trigger] letters[i]] != digits[#[trigger] letters[j]] {
        assert forall|i: int, j: int| 0 <= i < j < terms.len() implies term_value(
            #[trigger] terms[i],
            digits,
        ) != term_value(#[trigger] terms[j], digits) by {
            assert(digits[letters[i]] != digits[letters[j]]);
        }
    }
}

/// Two lists of constraints hold together where each of them holds.
pub proof fn lemma_all_hold_of_both(
    first: Seq<Constraint>,
    second: Seq<Constraint>,
    digits: Map<char, int>,
)
    ensures
        all_hold(first + second, digits) <==> all_hold(first, digits) && all_hold(second, digits),
{
    let both = first + second;
    if all_hold(both, digits) {
        assert forall|i: int| 0 <= i < first.len() implies holds(#[trigger] first[i], digits) by {
            assert(both[i] == first[i]);
        }
        assert forall|i: int| 0 <= i < second.len() implies holds(#[trigger] second[i], digits) by {
            assert(both[first.len() + i] == second[i]);
        }
    }
    if all_hold(first, digits) && all_hold(second, digits) {
        assert forall|i: int| 0 <= i < both.len() implies holds(#[trigger] both[i], digits) by {
            if i < first.len() {
                assert(both[i] == first[i]);
            } else {
                assert(both[i] == second[i - first.len()]);
            }
        }
    }
}

/// The constraints of a puzzle hold of exactly its solutions: of the maps
/// that give digits to the letters of the puzzle and to nothing else, one
/// meets every constraint if and only if it solves the puzzle. `letters` are
/// the letters of the puzzle, none of them twice, and no word is empty.
pub proof fn lemma_constraints_characterize_solutions(
    letters: Seq<char>,
    lhs: Seq<Seq<char>>,
    rhs: Seq<Seq<char>>,
    digits: Map<char, int>,
)
    requires
        letters.no_duplicates(),
        forall|letter: char| letters.contains(letter) <==> occurs(lhs + rhs, letter),
        forall|letter: char| digits.dom().contains(letter) <==> letters.contains(letter),
        no_empty_word(lhs + rhs),
    ensures
        all_hold(constraint_set(letters, lhs, rhs), digits) <==> is_solution(lhs, rhs, digits),
{
    let words = lhs + rhs;
    let bounds = digit_bounds(letters);
    let leading = leading_bounds(words);
    let different = seq![all_distinct(letters)];
    let equal = seq![equation(lhs, rhs)];
    lemma_all_hold_of_both(bounds + leading + different, equal, digits);
    lemma_all_hold_of_both(bounds + leading, different, digits);
    lemma_all_hold_of_both(bounds, leading, digits);
    assert(all_hold(different, digits) <==> holds(all_distinct(letters), digits)) by {
        assert(different[0] == all_distinct(letters));
    }
    assert(all_hold(equal, digits) <==> holds(equation(lhs, rhs), digits)) by {
        assert(equal[0] == equation(lhs, rhs));
    }
    lemma_digit_bounds_hold(letters, digits);
    lemma_leading_bounds_hold(words, digits);
    lemma_all_distinct_holds(letters, digits);
    lemma_total_term_value(lhs, digits);
    lemma_total_term_value(rhs, digits);
    assert forall|letter: char| digits.dom().contains(letter) <==> letters_of(words).contains(
        letter,
    ) by {
        assert(digits.dom().contains(letter) <==> letters.contains(letter));
        assert(letters.contains(letter) <==> occurs(words, letter));
    }
    assert(digits.dom() =~= letters_of(words));
    let in_range = forall|i: int|
        0 <= i < letters.len() ==> 0 <= digits[#[trigger] letters[i]] <= 9;
    let lead = forall|i: int| 0 <= i < words.len() ==> digits[(#[trigger] words[i])[0]] >= 1;
    let differ = forall|i: int, j: int|
        0 <= i < j < letters.len() ==> digits[#[trigger] letters[i]] != digits[#[trigger] letters[j]];
    assert(in_range <==> digits_in_range(digits)) by {
        if in_range {
            assert forall|letter: char| digits.dom().contains(letter) implies 0
                <= #[trigger] digits[letter] <= 9 by {
                assert(letters.contains(letter));
                let i = choose|i: int| 0 <= i < letters.len() && letters[i] == letter;
                assert(0 <= digits[letters[i]] <= 9);
            }
        }
        if digits_in_range(digits) {
            assert forall|i: int| 0 <= i < letters.len() implies 0 <= digits[#[trigger] letters[i]] <= 9 by {
                assert(letters.contains(letters[i]));
            }
        }
    }
    assert(differ <==> digits_distinct(digits)) by {
        if differ {
            assert forall|a: char, b: char|
                digits.dom().contains(a) && digits.dom().contains(b) && a != b implies #[trigger] digits[a]
                != #[trigger] digits[b] by {
                assert(letters.contains(a));
                assert(letters.contains(b));
                let i = choose|i: int| 0 <= i < letters.len() && letters[i] == a;
                let j = choose|j: int| 0 <= j < letters.len() && letters[j] == b;
                if i < j {
                    assert(digits[letters[i]] != digits[letters[j]]);
                } else {
                    assert(digits[letters[j]] != digits[letters[i]]);
                }
            }
        }
        if digits_distinct(digits) {
            assert forall|i: int, j: int| 0 <= i < j < letters.len() implies digits[#[trigger] letters[i]] != digits[#[trigger] letters[j]] by {
                assert(letters.contains(letters[i]));
                assert(letters.contains(letters[j]));
                assert(digits.dom().contains(letters[i]));
                assert(digits.dom().contains(letters[j]));
            }
        }
    }
    if in_range {
        assert(lead <==> no_leading_zero(words, digits)) by {
            if lead {
                assert forall|i: int| 0 <= i < words.len() && (#[trigger] words[i]).len()
                    > 0 implies digits[words[i][0]] != 0 by {
                    assert(digits[words[i][0]] >= 1);
                }
            }
            if no_leading_zero(words, digits) {
                assert forall|i: int| 0 <= i < words.len() implies digits[(#[trigger] words[i])[0]]
                    >= 1 by {
                    assert(words[i].len() > 0);
                    assert(occurs(words, words[i][0]));
                    assert(digits.dom().contains(words[i][0]));
                }
            }
        }
    }
}

} // verus!

