use opus_rs::compat::{sort, sort_by, OnceCell};
use std::cell::Cell;

#[test]
fn sort_integers() {
    let mut v = [5, 3, 9, 1, 3, 0, -2];
    sort(&mut v);
    assert_eq!(v, [-2, 0, 1, 3, 3, 5, 9]);
}

#[test]
fn sort_empty_and_single() {
    let mut e: [u8; 0] = [];
    sort(&mut e);
    assert_eq!(e, []);
    let mut one = [4u8];
    sort(&mut one);
    assert_eq!(one, [4]);
}

#[test]
fn sort_by_descending() {
    let mut v = vec![1, 4, 2, 8, 5, 7];
    sort_by(&mut v, |a, b| b.cmp(a));
    assert_eq!(v, vec![8, 7, 5, 4, 2, 1]);
}

#[test]
fn sort_by_key_is_stable() {
    // Sorting by the first component keeps the order of equal keys.
    let mut v = [(2, 'a'), (1, 'b'), (2, 'c'), (1, 'd'), (0, 'e')];
    sort_by(&mut v, |x, y| x.0.cmp(&y.0));
    assert_eq!(v, [(0, 'e'), (1, 'b'), (1, 'd'), (2, 'a'), (2, 'c')]);
}

#[test]
fn sort_keeps_sorted_input() {
    let mut v = [1, 2, 2, 3, 10];
    sort(&mut v);
    assert_eq!(v, [1, 2, 2, 3, 10]);
}

#[test]
fn once_cell_initializes_once() {
    let cell: OnceCell<u32> = OnceCell::new();
    let calls = Cell::new(0);
    let a = *cell.get(|| {
        calls.set(calls.get() + 1);
        42
    });
    let b = *cell.get(|| {
        calls.set(calls.get() + 1);
        7
    });
    assert_eq!(a, 42);
    assert_eq!(b, 42);
    assert_eq!(calls.get(), 1);
}

#[test]
fn once_cell_initializer_may_use_the_cell() {
    // The initializer runs outside the cell, so it may read the cell itself.
    let cell: OnceCell<u32> = OnceCell::new();
    let v = *cell.get(|| *cell.get(|| 1) + 10);
    assert_eq!(v, 1);
    assert_eq!(*cell.get(|| 5), 1);
}

#[test]
fn once_cell_default_is_empty() {
    let cell: OnceCell<String> = OnceCell::default();
    assert_eq!(cell.get(|| "x".to_string()), "x");
    assert_eq!(cell.get(|| "y".to_string()), "x");
}

#[test]
fn sort_by_matches_std_stable_sort() {
    let input = [(3, 'a'), (1, 'b'), (3, 'c'), (2, 'd'), (1, 'e'), (3, 'f'), (0, 'g')];
    let mut ours = input;
    sort_by(&mut ours, |x, y| x.0.cmp(&y.0));
    let mut theirs = input.to_vec();
    theirs.sort_by_key(|x| x.0);
    assert_eq!(ours.to_vec(), theirs);
}

#[test]
fn sort_of_rearrangements_is_equal() {
    let mut a = [4, 1, 3, 1, 2];
    let mut b = [1, 2, 1, 4, 3];
    sort(&mut a);
    sort(&mut b);
    assert_eq!(a, b);
}
