use quotes_api::sampling::select_rows;

#[test]
fn rows_come_out_in_key_order() {
    let accepted = vec![true, true, true, true];
    assert_eq!(select_rows(&accepted, &vec![40, 10, 30, 20], 4), vec![1, 3, 2, 0]);
    assert_eq!(select_rows(&accepted, &vec![40, 10, 30, 20], 2), vec![1, 3]);
}

#[test]
fn equal_keys_keep_the_order_of_the_rows() {
    let accepted = vec![true, true, true];
    assert_eq!(select_rows(&accepted, &vec![1, 1, 1], 3), vec![0, 1, 2]);
    assert_eq!(select_rows(&accepted, &vec![2, 1, 1], 3), vec![1, 2, 0]);
}

#[test]
fn only_accepted_rows_are_drawn() {
    let accepted = vec![false, true, false, true, true];
    assert_eq!(select_rows(&accepted, &vec![0, 5, 1, 4, 3], 2), vec![4, 3]);
    assert_eq!(select_rows(&accepted, &vec![0, 5, 1, 4, 3], 9), vec![4, 3, 1]);
    assert!(select_rows(&vec![false, false], &vec![1, 2], 3).is_empty());
}

#[test]
fn missing_keys_count_as_zero() {
    let accepted = vec![true, true, true];
    assert_eq!(select_rows(&accepted, &vec![], 3), vec![0, 1, 2]);
    assert_eq!(select_rows(&accepted, &vec![9], 3), vec![1, 2, 0]);
    assert_eq!(select_rows(&accepted, &vec![0, 0, 0, 7, 7], 3), vec![0, 1, 2]);
}

#[test]
fn nothing_is_drawn_for_count_zero_or_no_rows() {
    assert!(select_rows(&vec![true, true], &vec![1, 2], 0).is_empty());
    assert!(select_rows(&vec![], &vec![1, 2], 5).is_empty());
}

#[test]
fn largest_keys_are_ordered_like_any_other() {
    let accepted = vec![true, true, true];
    assert_eq!(select_rows(&accepted, &vec![u64::MAX, 0, u64::MAX], 3), vec![1, 0, 2]);
}
