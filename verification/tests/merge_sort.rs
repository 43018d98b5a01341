use rootspace::engine::common::merge_sort::{merge_sort_with, merge_with};

#[test]
fn test_merge_sort_ascending() {
    let mut x = [5u32, 3, 9, 1, 1, 8, 0, 7];
    merge_sort_with(&mut x, &|a: &u32, b: &u32| a <= b);
    assert_eq!(x, [0, 1, 1, 3, 5, 7, 8, 9]);
}

#[test]
fn test_merge_sort_descending() {
    let mut x = [2i64, -4, 10, 3];
    merge_sort_with(&mut x, &|a: &i64, b: &i64| a >= b);
    assert_eq!(x, [10, 3, 2, -4]);
}

#[test]
fn test_merge_sort_is_stable() {
    let mut x = [(2u8, 'a'), (1, 'b'), (2, 'c'), (1, 'd')];
    merge_sort_with(&mut x, &|a: &(u8, char), b: &(u8, char)| a.0 <= b.0);
    assert_eq!(x, [(1, 'b'), (1, 'd'), (2, 'a'), (2, 'c')]);
}

#[test]
fn test_merge_sort_edge_cases() {
    let mut empty: [u8; 0] = [];
    merge_sort_with(&mut empty, &|a: &u8, b: &u8| a <= b);
    let mut one = [4u8];
    merge_sort_with(&mut one, &|a: &u8, b: &u8| a <= b);
    assert_eq!(one, [4]);
}

#[test]
fn test_merge_with() {
    let a = [1u16, 4, 9];
    let b = [2u16, 3, 10, 11];
    let mut out = [0u16; 7];
    merge_with(&a, &b, &mut out, &|x: &u16, y: &u16| x <= y);
    assert_eq!(out, [1, 2, 3, 4, 9, 10, 11]);
}

#[test]
fn test_merge_sort_keeps_equal_keys_in_order() {
    let mut x = [(1u32, 'a'), (0, 'b'), (1, 'c'), (0, 'd'), (0, 'e')];
    merge_sort_with(&mut x, &|p: &(u32, char), q: &(u32, char)| p.0 <= q.0);
    assert_eq!(x, [(0, 'b'), (0, 'd'), (0, 'e'), (1, 'a'), (1, 'c')]);
}
