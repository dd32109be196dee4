//! Assignments of digits to letters.
use vstd::prelude::*;
use crate::numeral::row_ints;
use crate::puzzle::{digit_row, digits_distinct, digits_in_range};

verus! {

/// The map that gives each letter of `letters` the digit that stands at the
/// same index in `digits`.
pub open spec fn pairing(letters: Seq<char>, digits: Seq<u8>) -> Map<char, int> {
    Map::new(
        |letter: char| letters.contains(letter),
        |letter: char| digits[letters.index_of(letter)] as int,
    )
}

/// Where no letter stands twice, the pairing gives the letter at an index the
/// digit at that index.
pub proof fn lemma_pairing_at(letters: Seq<char>, digits: Seq<u8>, index: int)
    requires
        letters.no_duplicates(),
        0 <= index < letters.len(),
    ensures
        pairing(letters, digits).dom().contains(letters[index]),
        pairing(letters, digits)[letters[index]] == digits[index],
{
    assert(letters.contains(letters[index]));
    assert(letters.index_of(letters[index]) == index);
}

/// Whether no character stands twice in `letters`.
pub fn has_no_duplicates(letters: &Vec<char>) -> (none: bool)
    ensures
        none == letters@.no_duplicates(),
{
    let mut later: usize = 0;
    while later < letters.len()
        invariant
            later <= letters.len(),
            forall|i: int, j: int| 0 <= i < j < later ==> letters[i] != letters[j],
        decreases letters.len() - later,
    {
        let mut earlier: usize = 0;
        while earlier < later
            invariant
                earlier <= later < letters.len(),
                forall|i: int| 0 <= i < earlier ==> letters[i] != letters[later as int],
            decreases later - earlier,
        {
            if letters[earlier] == letters[later] {
                return false;
            }
            earlier += 1;
        }
        later += 1;
    }
    true
}

/// The index at which `letter` stands in `letters`, if it stands there.
pub fn position(letters: &Vec<char>, letter: char) -> (found: Option<usize>)
    ensures
        found is Some <==> letters@.contains(letter),
        found matches Some(index) ==> index < letters.len() && letters[index as int] == letter
            && forall|i: int| 0 <= i < index ==> letters[i] != letter,
{
    let mut index: usize = 0;
    while index < letters.len()
        invariant
            index <= letters.len(),
            forall|i: int| 0 <= i < index ==> letters[i] != letter,
        decreases letters.len() - index,
    {
        if letters[index] == letter {
            return Some(index);
        }
        index += 1;
    }
    None
}

/// A digit for each of some letters: no letter twice, every digit from 0 to 9.
/// Its view is the map from the letters to their digits.
#[derive(Debug)]
pub struct Assignment {
    letters: Vec<char>,
    digits: Vec<u8>,
}

impl View for Assignment {
    type V = Map<char, int>;

    closed spec fn view(&self) -> Map<char, int> {
        pairing(self.letters@, self.digits@)
    }
}

impl Assignment {
    #[verifier::type_invariant]
    spec fn well_formed(&self) -> bool {
        &&& self.letters.len() == self.digits.len()
        &&& self.letters@.no_duplicates()
        &&& forall|i: int| 0 <= i < self.digits.len() ==> self.digits[i] <= 9
    }

    /// The letters that have a digit, in the order in which they were given.
    pub closed spec fn keys(&self) -> Seq<char> {
        self.letters@
    }

    /// The assignment that gives each of `letters` the digit at the same index
    /// of `digits`. There is none where the two differ in length, a letter
    /// stands twice, or a digit is above 9.
    pub fn new(letters: Vec<char>, digits: Vec<u8>) -> (made: Option<Assignment>)
        ensures
            made is Some <==> (letters.len() == digits.len() && letters@.no_duplicates()
                && forall|i: int| 0 <= i < digits.len() ==> digits[i] <= 9),
            made matches Some(assignment) ==> assignment@ == pairing(letters@, digits@)
                && assignment.keys() == letters@,
    {
        if letters.len() != digits.len() {
            return None;
        }
        if !has_no_duplicates(&letters) {
            return None;
        }
        let mut index: usize = 0;
        while index < digits.len()
            invariant
                index <= digits.len(),
                forall|i: int| 0 <= i < index ==> digits[i] <= 9,
            decreases digits.len() - index,
        {
            if digits[index] > 9 {
                return None;
            }
            index += 1;
        }
        Some(Assignment { letters, digits })
    }

    /// The letters that have a digit. Every digit is a decimal digit.
    pub fn letters(&self) -> (letters: &Vec<char>)
        ensures
            letters@ == self.keys(),
            letters@.no_duplicates(),
            forall|letter: char| letters@.contains(letter) <==> self@.dom().contains(letter),
            digits_in_range(self@),
    {
        proof {
            use_type_invariant(self);
            assert forall|letter: char| self@.dom().contains(letter) implies 0 <= #[trigger] self@[letter]
                <= 9 by {
                let index = self.letters@.index_of(letter);
                assert(self.digits[index] <= 9);
            }
        }
        &self.letters
    }

    /// The number of letters that have a digit.
    pub fn len(&self) -> (count: usize)
        ensures
            count == self.keys().len(),
    {
        self.letters.len()
    }

    /// The digit of `letter`, if it has one.
    pub fn digit_of(&self, letter: char) -> (digit: Option<u8>)
        ensures
            digit is Some <==> self@.dom().contains(letter),
            digit matches Some(value) ==> value == self@[letter] && value <= 9,
    {
        proof {
            use_type_invariant(self);
        }
        match position(&self.letters, letter) {
            Some(index) => {
                proof {
                    lemma_pairing_at(self.letters@, self.digits@, index as int);
                }
                Some(self.digits[index])
            },
            None => None,
        }
    }

    /// Whether no two letters have the same digit.
    pub fn digits_differ(&self) -> (differ: bool)
        ensures
            differ == digits_distinct(self@),
    {
        proof {
            use_type_invariant(self);
        }
        let mut later: usize = 0;
        while later < self.digits.len()
            invariant
                later <= self.digits.len(),
                self.letters.len() == self.digits.len(),
                self.letters@.no_duplicates(),
                forall|i: int, j: int| 0 <= i < j < later ==> self.digits[i] != self.digits[j],
            decreases self.digits.len() - later,
        {
            let mut earlier: usize = 0;
            while earlier < later
                invariant
                    earlier <= later < self.digits.len(),
                    self.letters.len() == self.digits.len(),
                    self.letters@.no_duplicates(),
                    forall|i: int| 0 <= i < earlier ==> self.digits[i] != self.digits[later as int],
                decreases later - earlier,
            {
                if self.digits[earlier] == self.digits[later] {
                    proof {
                        lemma_pairing_at(self.letters@, self.digits@, earlier as int);
                        lemma_pairing_at(self.letters@, self.digits@, later as int);
                    }
                    return false;
                }
                earlier += 1;
            }
            later += 1;
        }
        proof {
            assert forall|a: char, b: char|
                self@.dom().contains(a) && self@.dom().contains(b) && a != b implies #[trigger] self@[a]
                != #[trigger] self@[b] by {
                let i = self.letters@.index_of(a);
                let j = self.letters@.index_of(b);
                if i < j {
                    assert(self.digits[i] != self.digits[j]);
                } else {
                    assert(self.digits[j] != self.digits[i]);
                }
            }
        }
        true
    }

    /// The digits of the letters of `word`, in order, if each of its letters
    /// has one.
    pub fn substitute(&self, word: &Vec<char>) -> (row: Option<Vec<u8>>)
        ensures
            row is Some <==> forall|j: int|
                0 <= j < word.len() ==> self@.dom().contains(#[trigger] word[j]),
            row matches Some(digits) ==> row_ints(digits@) == digit_row(word@, self@)
                && forall|j: int| 0 <= j < digits.len() ==> #[trigger] digits[j] <= 9,
    {
        let mut digits: Vec<u8> = Vec::new();
        let mut index: usize = 0;
        while index < word.len()
            invariant
                index <= word.len(),
                digits.len() == index,
                forall|j: int| 0 <= j < index ==> self@.dom().contains(#[trigger] word[j]),
                forall|j: int| 0 <= j < index ==> #[trigger] digits[j] == self@[word[j]],
                forall|j: int| 0 <= j < index ==> #[trigger] digits[j] <= 9,
            decreases word.len() - index,
        {
            match self.digit_of(word[index]) {
                Some(digit) => {
                    digits.push(digit);
                },
                None => {
                    return None;
                },
            }
            index += 1;
        }
        assert(row_ints(digits@) =~= digit_row(word@, self@));
        Some(digits)
    }
}

} // verus!
