use cryptarithm::assignment::Assignment;
use cryptarithm::driver::Outcome;
use cryptarithm::input::split_words;
use cryptarithm::present::{
    aligned_line, digit_to_char, digits_to_chars, filled_line, no_solution_message,
    render_outcome, render_table, replace_letters, string_of, widest_word,
};

fn classical() -> Assignment {
    Assignment::new(
        vec!['S', 'E', 'N', 'D', 'M', 'O', 'R', 'Y'],
        vec![9, 5, 6, 7, 1, 0, 8, 2],
    )
    .unwrap()
}

fn chars(word: &str) -> Vec<char> {
    word.chars().collect()
}

#[test]
fn digits_are_written_as_characters() {
    assert_eq!(digit_to_char(0), '0');
    assert_eq!(digit_to_char(5), '5');
    assert_eq!(digit_to_char(9), '9');
    assert_eq!(digits_to_chars(&vec![1, 0, 6, 5, 2]), vec!['1', '0', '6', '5', '2']);
    assert_eq!(digits_to_chars(&vec![]), Vec::<char>::new());
}

#[test]
fn letters_are_replaced_in_a_word() {
    let assignment = classical();
    assert_eq!(replace_letters("SEND", &assignment), Some("9567".to_string()));
    assert_eq!(replace_letters("MORE", &assignment), Some("1085".to_string()));
    assert_eq!(replace_letters("MONEY", &assignment), Some("10652".to_string()));
    assert_eq!(replace_letters("", &assignment), Some("".to_string()));
    assert_eq!(replace_letters("MONKEY", &assignment), None);
}

#[test]
fn lines_are_aligned_to_the_right() {
    assert_eq!(aligned_line(&chars("SEND"), 5), " SEND");
    assert_eq!(aligned_line(&chars("MONEY"), 5), "MONEY");
    assert_eq!(aligned_line(&chars("MONEY"), 3), "MONEY");
    assert_eq!(aligned_line(&chars(""), 2), "  ");
    assert_eq!(aligned_line(&chars("A"), 0), "A");
    assert_eq!(filled_line('-', 4, &chars("")), "----");
    assert_eq!(filled_line('.', 2, &chars("ab")), "..ab");
    assert_eq!(filled_line('.', 0, &chars("ab")), "ab");
    assert_eq!(string_of(&chars("\u{e9}t\u{e9}")), "\u{e9}t\u{e9}");
}

#[test]
fn the_widest_word_sets_the_width() {
    assert_eq!(widest_word(&vec![chars("SEND"), chars("MONEY"), chars("MORE")]), 5);
    assert_eq!(widest_word(&vec![]), 0);
    // Characters are counted, not bytes.
    assert_eq!(widest_word(&vec![chars("\u{e9}t\u{e9}")]), 3);
}

#[test]
fn the_table_of_send_more_money() {
    let lines = render_table(&vec!["SEND", "MORE"], &vec!["MONEY"], &classical()).unwrap();
    assert_eq!(
        lines,
        vec!["", " SEND", " MORE", "MONEY", "-----", " 9567", " 1085", "10652"]
    );
}

#[test]
fn the_table_of_a_single_word_on_each_side() {
    let assignment = Assignment::new(vec!['A'], vec![3]).unwrap();
    let lines = render_table(&vec!["A"], &vec!["A"], &assignment).unwrap();
    assert_eq!(lines, vec!["", "A", "A", "-", "3", "3"]);
}

#[test]
fn no_table_without_a_digit_for_each_letter() {
    assert_eq!(render_table(&vec!["SEND", "MORE"], &vec!["MONKEY"], &classical()), None);
}

#[test]
fn the_outcome_is_reported() {
    let lhs = vec!["SEND", "MORE"];
    let rhs = vec!["MONEY"];
    assert_eq!(no_solution_message(), "No solution found.");
    assert_eq!(
        render_outcome(&lhs, &rhs, &Outcome::NoSolution),
        Some(vec!["No solution found.".to_string()])
    );
    let lines = render_outcome(&lhs, &rhs, &Outcome::Solution(classical())).unwrap();
    assert_eq!(lines.len(), 8);
    assert_eq!(lines[3], "MONEY");
    assert_eq!(lines[4], "-----");
    assert_eq!(lines[7], "10652");
}

#[test]
fn a_line_is_split_at_white_space() {
    assert_eq!(split_words("SEND MORE"), vec!["SEND", "MORE"]);
    assert_eq!(split_words("SEND MORE\n"), vec!["SEND", "MORE"]);
    assert_eq!(split_words("  SEND \t  MORE  \r\n"), vec!["SEND", "MORE"]);
    assert_eq!(split_words("MONEY"), vec!["MONEY"]);
    assert_eq!(split_words(""), Vec::<String>::new());
    assert_eq!(split_words("  \n"), Vec::<String>::new());
    assert_eq!(split_words("a\u{a0}b\u{3000}c"), vec!["a", "b", "c"]);
    assert_eq!(split_words("A+B = C"), vec!["A+B", "=", "C"]);
}

#[test]
fn a_line_is_split_as_the_standard_library_splits_it() {
    for line in ["SEND MORE", " x  yy\tzzz \n", "", "\u{2003}one\u{2028}two", "a\u{200b}b c"] {
        let expected: Vec<String> = line.split_whitespace().map(|w| w.to_string()).collect();
        assert_eq!(split_words(line), expected);
    }
}
