use sticker::modal::grid::grid_rows;

#[test]
fn grid_fills_rows_then_remainder() {
    let rows = grid_rows((1..=10).collect::<Vec<i32>>(), 4);
    assert_eq!(rows, vec![vec![1, 2, 3, 4], vec![5, 6, 7, 8], vec![9, 10]]);
}

#[test]
fn grid_of_exact_rows_has_no_empty_row() {
    let rows = grid_rows((1..=8).collect::<Vec<i32>>(), 4);
    assert_eq!(rows, vec![vec![1, 2, 3, 4], vec![5, 6, 7, 8]]);
}

#[test]
fn grid_of_nothing_is_empty() {
    assert!(grid_rows(Vec::<i32>::new(), 5).is_empty());
}

#[test]
fn grid_of_zero_columns_puts_one_to_a_row() {
    assert_eq!(grid_rows(vec![1, 2, 3], 0), vec![vec![1], vec![2], vec![3]]);
}
