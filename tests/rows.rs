use pixel_flatten::NestedData;

#[test]
fn two_rows_flatten_in_order() {
    let n = NestedData { pixels: vec![vec![1, 2, 3, 4], vec![5, 6, 7, 8]] };
    let expected: Vec<u8> = vec![1, 2, 3, 4, 5, 6, 7, 8];
    assert_eq!(n.collect_loop(), expected);
    assert_eq!(n.collect_loop_with_prealloc(), expected);
    assert_eq!(n.collect_with_flatten(), expected);
}

#[test]
fn two_rows_sum() {
    let n = NestedData { pixels: vec![vec![1, 2, 3, 4], vec![5, 6, 7, 8]] };
    assert_eq!(n.iteration_nested_loop(), 36);
    assert_eq!(n.iteration_flatten(), 36);
}

#[test]
fn no_rows() {
    let n = NestedData { pixels: vec![] };
    assert!(n.collect_loop().is_empty());
    assert!(n.collect_loop_with_prealloc().is_empty());
    assert!(n.collect_with_flatten().is_empty());
    assert_eq!(n.iteration_nested_loop(), 0);
    assert_eq!(n.iteration_flatten(), 0);
}

#[test]
fn empty_rows_are_skipped() {
    let n = NestedData { pixels: vec![vec![], vec![9], vec![], vec![], vec![1, 2]] };
    assert_eq!(n.collect_loop(), vec![9, 1, 2]);
    assert_eq!(n.collect_with_flatten(), vec![9, 1, 2]);
    assert_eq!(n.iteration_nested_loop(), 12);
    assert_eq!(n.iteration_flatten(), 12);
}

#[test]
fn rows_of_zero_length() {
    let n = NestedData { pixels: vec![vec![], vec![], vec![]] };
    assert!(n.collect_loop_with_prealloc().is_empty());
    assert!(n.collect_with_flatten().is_empty());
    assert_eq!(n.iteration_flatten(), 0);
}

#[test]
fn many_short_rows() {
    let n = NestedData { pixels: vec![vec![77; 4]; 500000] };
    let flat = n.collect_loop();
    assert_eq!(flat.len(), 2_000_000);
    assert!(flat.iter().all(|b| *b == 77));
    assert_eq!(n.collect_loop_with_prealloc(), flat);
    assert_eq!(n.collect_with_flatten(), flat);
    assert_eq!(n.iteration_nested_loop(), 154_000_000);
    assert_eq!(n.iteration_flatten(), 154_000_000);
}

#[test]
fn few_long_rows() {
    let n = NestedData { pixels: vec![vec![77; 4000]; 500] };
    let flat = n.collect_loop();
    assert_eq!(flat.len(), 2_000_000);
    assert_eq!(n.collect_loop_with_prealloc(), flat);
    assert_eq!(n.collect_with_flatten(), flat);
    assert_eq!(n.iteration_nested_loop(), 154_000_000);
    assert_eq!(n.iteration_flatten(), 154_000_000);
}

#[test]
fn uneven_rows_keep_their_bytes() {
    let n = NestedData { pixels: vec![vec![1], vec![2, 3, 4], vec![5, 6]] };
    assert_eq!(n.collect_loop(), vec![1, 2, 3, 4, 5, 6]);
    assert_eq!(n.collect_with_flatten(), vec![1, 2, 3, 4, 5, 6]);
    assert_eq!(n.iteration_nested_loop(), 21);
    assert_eq!(n.iteration_flatten(), 21);
}

#[test]
fn row_sums_wrap_around() {
    // 17_000_000 * 255 = 4_335_000_000, which is 40_032_704 past 2^32.
    let n = NestedData { pixels: vec![vec![255; 1_000_000]; 17] };
    assert_eq!(n.iteration_nested_loop(), 40_032_704);
    assert_eq!(n.iteration_flatten(), 40_032_704);
}
