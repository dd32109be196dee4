use cryptarithm::numeral::{column_sum, longest_row, totals_agree};

#[test]
fn the_longest_row_is_measured() {
    assert_eq!(longest_row(&vec![]), 0);
    assert_eq!(longest_row(&vec![vec![]]), 0);
    assert_eq!(longest_row(&vec![vec![1, 2], vec![1, 2, 3], vec![4]]), 3);
}

#[test]
fn columns_are_counted_from_the_right() {
    let rows = vec![vec![9, 5, 6, 7], vec![1, 0, 8, 5], vec![3]];
    assert_eq!(column_sum(&rows, 0), 7 + 5 + 3);
    assert_eq!(column_sum(&rows, 1), 6 + 8);
    assert_eq!(column_sum(&rows, 2), 5 + 0);
    assert_eq!(column_sum(&rows, 3), 9 + 1);
    assert_eq!(column_sum(&rows, 4), 0);
    assert_eq!(column_sum(&vec![], 0), 0);
}

#[test]
fn equal_totals_agree() {
    // 9567 + 1085 = 10652
    assert!(totals_agree(
        &vec![vec![9, 5, 6, 7], vec![1, 0, 8, 5]],
        &vec![vec![1, 0, 6, 5, 2]]
    ));
    // 10652 = 9567 + 1085
    assert!(totals_agree(
        &vec![vec![1, 0, 6, 5, 2]],
        &vec![vec![1, 0, 8, 5], vec![9, 5, 6, 7]]
    ));
    // 7 + 8 + 9 = 24
    assert!(totals_agree(&vec![vec![7], vec![8], vec![9]], &vec![vec![2, 4]]));
}

#[test]
fn different_totals_disagree() {
    // 9567 + 1085 = 10652, not 10653, 10642, 20652 or 1065
    assert!(!totals_agree(
        &vec![vec![9, 5, 6, 7], vec![1, 0, 8, 5]],
        &vec![vec![1, 0, 6, 5, 3]]
    ));
    assert!(!totals_agree(
        &vec![vec![9, 5, 6, 7], vec![1, 0, 8, 5]],
        &vec![vec![1, 0, 6, 4, 2]]
    ));
    assert!(!totals_agree(
        &vec![vec![9, 5, 6, 7], vec![1, 0, 8, 5]],
        &vec![vec![2, 0, 6, 5, 2]]
    ));
    assert!(!totals_agree(&vec![vec![9, 5, 6, 7], vec![1, 0, 8, 5]], &vec![vec![1, 0, 6, 5]]));
}

#[test]
fn nothing_adds_up_to_nothing() {
    assert!(totals_agree(&vec![], &vec![]));
    assert!(totals_agree(&vec![vec![]], &vec![]));
    assert!(totals_agree(&vec![vec![0, 0, 0]], &vec![vec![0]]));
    assert!(!totals_agree(&vec![vec![1]], &vec![]));
    assert!(!totals_agree(&vec![], &vec![vec![1, 0]]));
}

#[test]
fn leading_zeros_do_not_change_a_number() {
    assert!(totals_agree(&vec![vec![0, 0, 4, 2]], &vec![vec![4, 2]]));
    assert!(!totals_agree(&vec![vec![4, 2, 0]], &vec![vec![4, 2]]));
}

#[test]
fn digits_above_nine_are_counted_at_their_place() {
    // 12 tens and 5 units are 125.
    assert!(totals_agree(&vec![vec![12, 5]], &vec![vec![1, 2, 5]]));
    assert!(totals_agree(&vec![vec![255, 255]], &vec![vec![2, 8, 0, 5]]));
    assert!(!totals_agree(&vec![vec![255, 255]], &vec![vec![2, 8, 0, 6]]));
}

#[test]
fn numbers_of_fifty_digits_are_summed_exactly() {
    let nines = vec![9u8; 50];
    let mut power = vec![0u8; 51];
    power[0] = 1;
    // 10^50 - 1 + 1 = 10^50
    assert!(totals_agree(&vec![nines.clone(), vec![1]], &vec![power.clone()]));
    assert!(!totals_agree(&vec![nines.clone(), vec![2]], &vec![power.clone()]));
    assert!(!totals_agree(&vec![nines.clone()], &vec![power.clone()]));
    // A difference in the highest place only.
    let mut other = nines.clone();
    other[0] = 8;
    assert!(!totals_agree(&vec![nines.clone()], &vec![other.clone()]));
    assert!(totals_agree(&vec![other.clone(), power.clone()], &vec![power.clone(), other]));
}

#[test]
fn many_rows_carry_more_than_one() {
    // Twelve nines are 108.
    let rows = vec![vec![9u8]; 12];
    assert!(totals_agree(&rows, &vec![vec![1, 0, 8]]));
    assert!(!totals_agree(&rows, &vec![vec![1, 1, 8]]));
    assert!(!totals_agree(&rows, &vec![vec![9, 8]]));
}
