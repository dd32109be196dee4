//! How a puzzle and its solution are written down: the words one below the
//! other, a rule, and below it the numbers that the words stand for.
use vstd::prelude::*;
use crate::assignment::Assignment;
use crate::checker::{lemma_occurs_in_both, substitute_all};
use crate::driver::Outcome;
use crate::numeral::{row_ints, rows_ints};
use crate::puzzle::{digit_row, digit_rows, occurs};
use crate::text::{char_rows, chars_of, chars_of_all, texts};

verus! {

/// The character that a decimal digit is written as.
pub open spec fn digit_char(digit: int) -> char {
    (('0' as int) + digit) as char
}

/// The characters that the digits of a row are written as.
pub open spec fn digit_text(row: Seq<int>) -> Seq<char> {
    Seq::new(row.len(), |i: int| digit_char(row[i]))
}

/// The character `c`, `count` times.
pub open spec fn fill(c: char, count: nat) -> Seq<char> {
    Seq::new(count, |i: int| c)
}

/// `text`, with so many blanks before it that it is `width` characters long.
/// A text that is longer stays as it is.
pub open spec fn right_aligned(text: Seq<char>, width: nat) -> Seq<char> {
    if text.len() < width {
        fill(' ', (width - text.len()) as nat) + text
    } else {
        text
    }
}

/// The length of the longest of `words`, 0 where there is none.
pub open spec fn widest(words: Seq<Seq<char>>) -> nat
    decreases words.len(),
{
    if words.len() == 0 {
        0
    } else if words.last().len() > widest(words.drop_last()) {
        words.last().len()
    } else {
        widest(words.drop_last())
    }
}

/// Each of `words`, aligned to the right in `width` characters.
pub open spec fn aligned_words(words: Seq<Seq<char>>, width: nat) -> Seq<Seq<char>> {
    Seq::new(words.len(), |i: int| right_aligned(words[i], width))
}

/// The digits of each of `words`, aligned to the right in `width` characters.
pub open spec fn aligned_numbers(words: Seq<Seq<char>>, digits: Map<char, int>, width: nat) -> Seq<
    Seq<char>,
> {
    Seq::new(words.len(), |i: int| right_aligned(digit_text(digit_row(words[i], digits)), width))
}

/// The lines of the table of a solution: an empty line, the words of the left
/// and then of the right side, a rule of hyphens, and the numbers of the
/// words in the same order. Words, rule and numbers are as wide as the
/// longest word, and aligned to the right.
pub open spec fn table(lhs: Seq<Seq<char>>, rhs: Seq<Seq<char>>, digits: Map<char, int>) -> Seq<
    Seq<char>,
> {
    let words = lhs + rhs;
    let width = widest(words);
    seq![Seq::<char>::empty()] + aligned_words(words, width) + seq![fill('-', width)]
        + aligned_numbers(words, digits, width)
}

/// The texts of some lines.
pub open spec fn line_texts(lines: Seq<String>) -> Seq<Seq<char>> {
    Seq::new(lines.len(), |i: int| lines[i]@)
}

/// The message for a puzzle without a solution.
pub open spec fn no_solution_text() -> Seq<char> {
    "No solution found."@
}

/// The character that a decimal digit is written as.
pub fn digit_to_char(digit: u8) -> (c: char)
    requires
        digit <= 9,
    ensures
        c == digit_char(digit as int),
{
    (48u8 + digit) as char
}

/// The characters that the digits of `row` are written as.
pub fn digits_to_chars(row: &Vec<u8>) -> (text: Vec<char>)
    requires
        forall|j: int| 0 <= j < row.len() ==> #[trigger] row[j] <= 9,
    ensures
        text@ == digit_text(row_ints(row@)),
{
    let mut text: Vec<char> = Vec::new();
    let mut index: usize = 0;
    while index < row.len()
        invariant
            index <= row.len(),
            forall|j: int| 0 <= j < row.len() ==> #[trigger] row[j] <= 9,
            text.len() == index,
            forall|j: int| 0 <= j < index ==> #[trigger] text[j] == digit_char(row[j] as int),
        decreases row.len() - index,
    {
        text.push(digit_to_char(row[index]));
        index += 1;
    }
    assert(text@ =~= digit_text(row_ints(row@)));
    text
}

/// The string of the characters of `text`.
pub fn string_of(text: &Vec<char>) -> (line: String)
    ensures
        line@ == text@,
{
    let mut line = String::new();
    let mut index: usize = 0;
    while index < text.len()
        invariant
            index <= text.len(),
            line@ == text@.take(index as int),
        decreases text.len() - index,
    {
        line.push(text[index]);
        assert(text@.take(index + 1) =~= text@.take(index as int).push(text[index as int]));
        index += 1;
    }
    assert(text@.take(text.len() as int) =~= text@);
    line
}

/// The character `c`, `count` times, followed by `text`.
pub fn filled_line(c: char, count: usize, text: &Vec<char>) -> (line: String)
    ensures
        line@ == fill(c, count as nat) + text@,
{
    let mut line = String::new();
    let mut made: usize = 0;
    while made < count
        invariant
            made <= count,
            line@ == fill(c, made as nat),
        decreases count - made,
    {
        line.push(c);
        assert(fill(c, (made + 1) as nat) =~= fill(c, made as nat).push(c));
        made += 1;
    }
    let mut index: usize = 0;
    while index < text.len()
        invariant
            index <= text.len(),
            line@ == fill(c, count as nat) + text@.take(index as int),
        decreases text.len() - index,
    {
        line.push(text[index]);
        assert(fill(c, count as nat) + text@.take(index + 1) =~= (fill(c, count as nat)
            + text@.take(index as int)).push(text[index as int]));
        index += 1;
    }
    assert(text@.take(text.len() as int) =~= text@);
    line
}

/// `text`, aligned to the right in `width` characters.
pub fn aligned_line(text: &Vec<char>, width: usize) -> (line: String)
    ensures
        line@ == right_aligned(text@, width as nat),
{
    if text.len() < width {
        filled_line(' ', width - text.len(), text)
    } else {
        string_of(text)
    }
}

/// The length of the longest of `words`, 0 where there is none.
pub fn widest_word(words: &Vec<Vec<char>>) -> (width: usize)
    ensures
        width == widest(char_rows(words@)),
{
    let ghost rows = char_rows(words@);
    let mut width: usize = 0;
    let mut index: usize = 0;
    assert(rows.take(0) =~= Seq::<Seq<char>>::empty());
    while index < words.len()
        invariant
            index <= words.len(),
            rows == char_rows(words@),
            width == widest(rows.take(index as int)),
        decreases words.len() - index,
    {
        proof {
            assert(rows.take(index + 1).drop_last() =~= rows.take(index as int));
            assert(rows.take(index + 1).last() == words[index as int]@);
        }
        if words[index].len() > width {
            width = words[index].len();
        }
        index += 1;
    }
    assert(rows.take(words.len() as int) =~= rows);
    width
}

/// The digits of the letters of `word`, written one after the other, if each
/// of its letters has a digit.
pub fn replace_letters(word: &str, assignment: &Assignment) -> (number: Option<String>)
    ensures
        number is Some <==> forall|j: int|
            0 <= j < word@.len() ==> assignment@.dom().contains(#[trigger] word@[j]),
        number matches Some(text) ==> text@ == digit_text(digit_row(word@, assignment@)),
{
    let chars = chars_of(word);
    match assignment.substitute(&chars) {
        Some(row) => Some(string_of(&digits_to_chars(&row))),
        None => None,
    }
}

/// The lines of the table of a solution, if each letter of the words has a
/// digit: an empty line, the words of the left and then of the right side, a
/// rule of hyphens, and the numbers of the words in the same order, all
/// aligned to the right and as wide as the longest word.
pub fn render_table(lhs_words: &Vec<&str>, rhs_words: &Vec<&str>, assignment: &Assignment) -> (lines:
    Option<Vec<String>>)
    ensures
        lines is Some <==> forall|letter: char|
            occurs(texts(lhs_words@) + texts(rhs_words@), letter) ==> assignment@.dom().contains(
                letter,
            ),
        lines matches Some(made) ==> line_texts(made@) == table(
            texts(lhs_words@),
            texts(rhs_words@),
            assignment@,
        ),
{
    let mut words = chars_of_all(lhs_words);
    let mut rhs = chars_of_all(rhs_words);
    let ghost left = texts(lhs_words@);
    let ghost right = texts(rhs_words@);
    words.append(&mut rhs);
    let ghost all = left + right;
    assert(char_rows(words@) =~= all);
    let rows = match substitute_all(assignment, &words) {
        Some(rows) => rows,
        None => {
            return None;
        },
    };
    let width = widest_word(&words);
    let ghost digits = assignment@;
    let ghost wanted = table(left, right, digits);
    let mut lines: Vec<String> = Vec::new();
    lines.push(String::new());
    let mut index: usize = 0;
    assert(rows_ints(rows@).len() == rows.len());
    assert(digit_rows(all, digits).len() == all.len());
    while index < words.len()
        invariant
            index <= words.len(),
            char_rows(words@) == all,
            width == widest(all),
            wanted == table(left, right, digits),
            all == left + right,
            lines.len() == 1 + index,
            forall|i: int| 0 <= i < lines.len() ==> (#[trigger] lines[i])@ == wanted[i],
        decreases words.len() - index,
    {
        let line = aligned_line(&words[index], width);
        proof {
            assert(all[index as int] == words[index as int]@);
            assert(wanted[1 + index] == aligned_words(all, width as nat)[index as int]);
        }
        lines.push(line);
        index += 1;
    }
    let no_text: Vec<char> = Vec::new();
    let rule = filled_line('-', width, &no_text);
    proof {
        assert(fill('-', width as nat) + no_text@ =~= fill('-', width as nat));
        assert(wanted[1 + words.len()] == fill('-', width as nat));
    }
    lines.push(rule);
    let mut index: usize = 0;
    while index < rows.len()
        invariant
            index <= rows.len(),
            rows.len() == words.len(),
            char_rows(words@) == all,
            width == widest(all),
            wanted == table(left, right, digits),
            all == left + right,
            digits == assignment@,
            rows_ints(rows@) == digit_rows(all, digits),
            forall|i: int, j: int|
                0 <= i < rows.len() && 0 <= j < rows[i].len() ==> #[trigger] rows[i][j] <= 9,
            lines.len() == 2 + words.len() + index,
            forall|i: int| 0 <= i < lines.len() ==> (#[trigger] lines[i])@ == wanted[i],
        decreases rows.len() - index,
    {
        let row = &rows[index];
        let text = digits_to_chars(row);
        let line = aligned_line(&text, width);
        proof {
            assert(rows_ints(rows@)[index as int] == row_ints(row@));
            assert(digit_rows(all, digits)[index as int] == digit_row(all[index as int], digits));
            assert(wanted[2 + words.len() + index] == aligned_numbers(all, digits, width as nat)[index as int]);
        }
        lines.push(line);
        index += 1;
    }
    assert(line_texts(lines@) =~= wanted);
    Some(lines)
}

/// The message for a puzzle without a solution.
pub fn no_solution_message() -> (message: String)
    ensures
        message@ == no_solution_text(),
{
    String::from_str("No solution found.")
}

/// The lines that report `outcome` for the puzzle of the two sides: the table
/// of the solution, or the message that there is none. There are no lines
/// where a letter of the words has no digit in the solution.
pub fn render_outcome(lhs_words: &Vec<&str>, rhs_words: &Vec<&str>, outcome: &Outcome) -> (lines:
    Option<Vec<String>>)
    ensures
        match outcome {
            Outcome::Solution(assignment) => {
                &&& lines is Some <==> forall|letter: char|
                    occurs(texts(lhs_words@) + texts(rhs_words@), letter)
                        ==> assignment@.dom().contains(letter)
                &&& lines matches Some(made) ==> line_texts(made@) == table(
                    texts(lhs_words@),
                    texts(rhs_words@),
                    assignment@,
                )
            },
            Outcome::NoSolution => lines matches Some(made) && line_texts(made@)
                == seq![no_solution_text()],
        },
{
    match outcome {
        Outcome::Solution(assignment) => render_table(lhs_words, rhs_words, assignment),
        Outcome::NoSolution => {
            let mut lines: Vec<String> = Vec::new();
            lines.push(no_solution_message());
            assert(line_texts(lines@) =~= seq![no_solution_text()]);
            Some(lines)
        },
    }
}

} // verus!
