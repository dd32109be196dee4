use cryptarithm::assignment::Assignment;
use cryptarithm::checker::{
    check_solution, no_row_leads_with_zero, occurs_in, solves, substitute_all,
};

fn classical() -> Assignment {
    Assignment::new(
        vec!['S', 'E', 'N', 'D', 'M', 'O', 'R', 'Y'],
        vec![9, 5, 6, 7, 1, 0, 8, 2],
    )
    .unwrap()
}

fn chars(word: &str) -> Vec<char> {
    word.chars().collect()
}

#[test]
fn an_assignment_gives_each_letter_its_digit() {
    let assignment = classical();
    assert_eq!(assignment.len(), 8);
    assert_eq!(assignment.letters(), &vec!['S', 'E', 'N', 'D', 'M', 'O', 'R', 'Y']);
    assert_eq!(assignment.digit_of('S'), Some(9));
    assert_eq!(assignment.digit_of('O'), Some(0));
    assert_eq!(assignment.digit_of('Y'), Some(2));
    assert_eq!(assignment.digit_of('s'), None);
    assert_eq!(assignment.digit_of('A'), None);
}

#[test]
fn an_empty_assignment_is_an_assignment() {
    let assignment = Assignment::new(vec![], vec![]).unwrap();
    assert_eq!(assignment.len(), 0);
    assert_eq!(assignment.digit_of('A'), None);
    assert!(assignment.digits_differ());
}

#[test]
fn an_assignment_needs_one_digit_for_each_letter() {
    assert!(Assignment::new(vec!['A', 'B'], vec![1]).is_none());
    assert!(Assignment::new(vec!['A'], vec![1, 2]).is_none());
}

#[test]
fn an_assignment_names_no_letter_twice() {
    assert!(Assignment::new(vec!['A', 'B', 'A'], vec![1, 2, 3]).is_none());
    assert!(Assignment::new(vec!['A', 'B', 'A'], vec![1, 2, 1]).is_none());
}

#[test]
fn an_assignment_holds_decimal_digits_only() {
    assert!(Assignment::new(vec!['A'], vec![10]).is_none());
    assert!(Assignment::new(vec!['A', 'B'], vec![9, 255]).is_none());
    assert!(Assignment::new(vec!['A', 'B'], vec![9, 0]).is_some());
}

#[test]
fn equal_digits_are_noticed() {
    assert!(classical().digits_differ());
    let repeated = Assignment::new(vec!['A', 'B', 'C'], vec![1, 2, 1]).unwrap();
    assert!(!repeated.digits_differ());
    let single = Assignment::new(vec!['A'], vec![0]).unwrap();
    assert!(single.digits_differ());
}

#[test]
fn letters_are_replaced_by_their_digits() {
    let assignment = classical();
    assert_eq!(assignment.substitute(&chars("SEND")), Some(vec![9, 5, 6, 7]));
    assert_eq!(assignment.substitute(&chars("MONEY")), Some(vec![1, 0, 6, 5, 2]));
    assert_eq!(assignment.substitute(&chars("")), Some(vec![]));
    assert_eq!(assignment.substitute(&chars("SENT")), None);
    assert_eq!(
        substitute_all(&assignment, &vec![chars("SEND"), chars("MORE")]),
        Some(vec![vec![9, 5, 6, 7], vec![1, 0, 8, 5]])
    );
    assert_eq!(substitute_all(&assignment, &vec![chars("SEND"), chars("MOST")]), None);
    assert_eq!(substitute_all(&assignment, &vec![]), Some(vec![]));
}

#[test]
fn the_classical_answer_solves_send_more_money() {
    let assignment = classical();
    assert!(solves(&vec!["SEND", "MORE"], &vec!["MONEY"], &assignment));
    assert!(solves(&vec!["MORE", "SEND"], &vec!["MONEY"], &assignment));
    assert!(check_solution(
        &vec![chars("SEND"), chars("MORE")],
        &vec![chars("MONEY")],
        &assignment
    ));
}

#[test]
fn a_wrong_sum_is_no_solution() {
    let assignment = classical();
    assert!(!solves(&vec!["SEND", "MORE"], &vec!["MONEYS"], &assignment));
    let off_by_one =
        Assignment::new(vec!['S', 'E', 'N', 'D', 'M', 'O', 'R', 'Y'], vec![9, 5, 6, 7, 1, 0, 8, 3])
            .unwrap();
    assert!(!solves(&vec!["SEND", "MORE"], &vec!["MONEY"], &off_by_one));
}

#[test]
fn a_letter_without_a_digit_is_no_solution() {
    let partial =
        Assignment::new(vec!['S', 'E', 'N', 'D', 'M', 'O', 'R'], vec![9, 5, 6, 7, 1, 0, 8])
            .unwrap();
    assert!(!solves(&vec!["SEND", "MORE"], &vec!["MONEY"], &partial));
}

#[test]
fn a_digit_for_a_letter_outside_the_puzzle_is_no_solution() {
    let wider = Assignment::new(
        vec!['S', 'E', 'N', 'D', 'M', 'O', 'R', 'Y', 'Z'],
        vec![9, 5, 6, 7, 1, 0, 8, 2, 4],
    )
    .unwrap();
    assert!(!solves(&vec!["SEND", "MORE"], &vec!["MONEY"], &wider));
}

#[test]
fn equal_digits_are_no_solution() {
    // 11 + 11 = 22 would hold with A = B = 1.
    let same = Assignment::new(vec!['A', 'B', 'C'], vec![1, 1, 2]).unwrap();
    assert!(!solves(&vec!["AB", "BA"], &vec!["CC"], &same));
    let different = Assignment::new(vec!['A', 'B', 'C'], vec![1, 2, 3]).unwrap();
    assert!(solves(&vec!["AB", "BA"], &vec!["CC"], &different));
}

#[test]
fn a_leading_zero_is_no_solution() {
    // 01 + 10 = 11 holds as a sum, but the first word begins with 0.
    let zero_first = Assignment::new(vec!['A', 'B'], vec![0, 1]).unwrap();
    assert!(!solves(&vec!["AB", "BA"], &vec!["BB"], &zero_first));
    // On the right side too: 5 + 5 = 10 is fine, 0 + 0 = 0 is not.
    let zero = Assignment::new(vec!['A'], vec![0]).unwrap();
    assert!(!solves(&vec!["A"], &vec!["A"], &zero));
    let one = Assignment::new(vec!['A'], vec![1]).unwrap();
    assert!(solves(&vec!["A"], &vec!["A"], &one));
}

#[test]
fn a_zero_inside_a_word_is_fine() {
    let assignment = Assignment::new(vec!['A', 'B', 'C'], vec![1, 0, 2]).unwrap();
    // 10 + 10 = 20
    assert!(solves(&vec!["AB", "AB"], &vec!["CB"], &assignment));
}

#[test]
fn long_words_are_summed_exactly() {
    // Forty digits each.
    let doubled = Assignment::new(vec!['A', 'B', 'C', 'D'], vec![1, 2, 3, 4]).unwrap();
    let ab = "ABABABABABABABABABABABABABABABABABABABAB";
    let cd = "CDCDCDCDCDCDCDCDCDCDCDCDCDCDCDCDCDCDCDCD";
    // 2 * 12 = 24, not 34.
    assert!(!solves(&vec![ab, ab], &vec![cd], &doubled));
    let halves = Assignment::new(vec!['A', 'B', 'C', 'D'], vec![1, 7, 3, 4]).unwrap();
    // 2 * 1717...17 = 3434...34.
    assert!(solves(&vec![ab, ab], &vec![cd], &halves));
    // A difference in the highest of forty places only.
    let high = "BAAAAAAAAAAAAAAAAAAAAAAAAAAAAAAAAAAAAAAA";
    let same = "AAAAAAAAAAAAAAAAAAAAAAAAAAAAAAAAAAAAAAAA";
    let two = Assignment::new(vec!['A', 'B'], vec![1, 2]).unwrap();
    assert!(!solves(&vec![high], &vec![same], &two));
    assert!(solves(&vec![high], &vec![high], &two));
}

#[test]
fn carries_run_through_many_places() {
    // 999...9 (30 nines) + 1 = 1000...0 (31 digits).
    let assignment = Assignment::new(vec!['N', 'I', 'Z'], vec![9, 1, 0]).unwrap();
    let nines = "NNNNNNNNNNNNNNNNNNNNNNNNNNNNNN";
    let power = "IZZZZZZZZZZZZZZZZZZZZZZZZZZZZZZ";
    assert!(solves(&vec![nines, "I"], &vec![power], &assignment));
    let short = "IZZZZZZZZZZZZZZZZZZZZZZZZZZZZZ";
    assert!(!solves(&vec![nines, "I"], &vec![short], &assignment));
}

#[test]
fn letters_are_looked_for_in_the_words() {
    let words = vec![chars("SEND"), chars("MORE")];
    assert!(occurs_in(&words, 'S'));
    assert!(occurs_in(&words, 'E'));
    assert!(occurs_in(&words, 'R'));
    assert!(!occurs_in(&words, 'Y'));
    assert!(!occurs_in(&vec![], 'Y'));
    assert!(!occurs_in(&vec![vec![]], 'Y'));
}

#[test]
fn leading_zeros_are_found_in_rows() {
    assert!(no_row_leads_with_zero(&vec![vec![9, 5, 6, 7], vec![1, 0, 8, 5]]));
    assert!(!no_row_leads_with_zero(&vec![vec![9, 5, 6, 7], vec![0, 1, 8, 5]]));
    assert!(!no_row_leads_with_zero(&vec![vec![0]]));
    assert!(no_row_leads_with_zero(&vec![vec![], vec![1]]));
    assert!(no_row_leads_with_zero(&vec![]));
}
