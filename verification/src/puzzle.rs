//! What a puzzle asks for: the words that are admitted, the number a word
//! stands for under an assignment of digits, and what makes an assignment a
//! solution.
use vstd::prelude::*;
use crate::characters::alphabetic;
use crate::numeral::{numeral_value, rows_total};

verus! {

/// Whether `c` may stand in a word: it is alphabetic. Upper and lower case are
/// different letters. The NUL character is named on its own account, because
/// the solver cannot take it in the name of an unknown; it is not alphabetic
/// in any case.
pub open spec fn is_letter(c: char) -> bool {
    c != '\0' && alphabetic(c)
}

/// Whether `word` is admitted: it is not empty and made of letters.
pub open spec fn valid_word(word: Seq<char>) -> bool {
    word.len() > 0 && forall|j: int| 0 <= j < word.len() ==> is_letter(#[trigger] word[j])
}

/// Whether `words` is admitted as one side of a puzzle: there is at least one
/// word, and every word is admitted.
pub open spec fn valid_side(words: Seq<Seq<char>>) -> bool {
    words.len() > 0 && forall|i: int| 0 <= i < words.len() ==> valid_word(#[trigger] words[i])
}

/// Whether the two sides make a puzzle.
pub open spec fn valid_input(lhs: Seq<Seq<char>>, rhs: Seq<Seq<char>>) -> bool {
    valid_side(lhs) && valid_side(rhs)
}

/// Whether `letter` stands somewhere in one of `words`.
pub open spec fn occurs(words: Seq<Seq<char>>, letter: char) -> bool {
    exists|i: int, j: int|
        0 <= i < words.len() && 0 <= j < words[i].len() && #[trigger] words[i][j] == letter
}

/// The letters that stand in `words`.
pub open spec fn letters_of(words: Seq<Seq<char>>) -> Set<char> {
    Set::new(|letter: char| occurs(words, letter))
}

/// The digits that `digits` puts in the place of the letters of `word`.
pub open spec fn digit_row(word: Seq<char>, digits: Map<char, int>) -> Seq<int> {
    Seq::new(word.len(), |j: int| digits[word[j]])
}

/// The digits that `digits` puts in the place of the letters of each word.
pub open spec fn digit_rows(words: Seq<Seq<char>>, digits: Map<char, int>) -> Seq<Seq<int>> {
    Seq::new(words.len(), |i: int| digit_row(words[i], digits))
}

/// The number that `word` stands for: its letters replaced by their digits,
/// read as a decimal numeral.
pub open spec fn word_value(word: Seq<char>, digits: Map<char, int>) -> int {
    numeral_value(digit_row(word, digits))
}

/// The sum of the numbers that `words` stand for.
pub open spec fn words_total(words: Seq<Seq<char>>, digits: Map<char, int>) -> int {
    rows_total(digit_rows(words, digits))
}

/// Every assigned digit is a decimal digit.
pub open spec fn digits_in_range(digits: Map<char, int>) -> bool {
    forall|letter: char| digits.dom().contains(letter) ==> 0 <= #[trigger] digits[letter] <= 9
}

/// No two letters have the same digit.
pub open spec fn digits_distinct(digits: Map<char, int>) -> bool {
    forall|a: char, b: char|
        digits.dom().contains(a) && digits.dom().contains(b) && a != b ==> #[trigger] digits[a]
            != #[trigger] digits[b]
}

/// No word begins with the digit 0.
pub open spec fn no_leading_zero(words: Seq<Seq<char>>, digits: Map<char, int>) -> bool {
    forall|i: int|
        0 <= i < words.len() && (#[trigger] words[i]).len() > 0 ==> digits[words[i][0]] != 0
}

/// The two sides add up to the same total.
pub open spec fn equation_holds(
    lhs: Seq<Seq<char>>,
    rhs: Seq<Seq<char>>,
    digits: Map<char, int>,
) -> bool {
    words_total(lhs, digits) == words_total(rhs, digits)
}

/// Whether `digits` solves the puzzle: it gives a decimal digit to each letter
/// of the puzzle and to nothing else, different digits to different letters,
/// to no first letter the digit 0, and the two sides add up to the same.
pub open spec fn is_solution(lhs: Seq<Seq<char>>, rhs: Seq<Seq<char>>, digits: Map<char, int>) -> bool {
    &&& digits.dom() == letters_of(lhs + rhs)
    &&& digits_in_range(digits)
    &&& digits_distinct(digits)
    &&& no_leading_zero(lhs + rhs, digits)
    &&& equation_holds(lhs, rhs, digits)
}

} // verus!
