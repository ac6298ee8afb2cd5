use slice_heap::{heap_pop_by, heap_push_by};
use std::cmp::Ordering;

#[test]
fn a_reversed_comparison_keeps_a_maximum_at_the_root() {
    let mut region = [10, 9, 7, 4, 8, 6, 11];
    heap_push_by(&mut region, |a, b| b.cmp(a));
    assert_eq!(region, [11, 9, 10, 4, 8, 6, 7]);

    heap_pop_by(&mut region, |a, b| b.cmp(a));
    assert_eq!(region, [10, 9, 7, 4, 8, 6, 11]);
    assert!((1..6).all(|i| region[(i - 1) / 2] >= region[i]));
}

#[test]
fn equal_elements_are_never_exchanged_on_push() {
    let mut region = [(1, 'a'), (1, 'b'), (1, 'c'), (1, 'd')];
    heap_push_by(&mut region, |a, b| a.0.cmp(&b.0));
    assert_eq!(region, [(1, 'a'), (1, 'b'), (1, 'c'), (1, 'd')]);
}

#[test]
fn the_left_child_wins_a_tie_on_pop() {
    let mut region = [(0, 'r'), (1, 'l'), (1, 'm'), (2, 'x'), (5, 'z')];
    heap_pop_by(&mut region, |a, b| a.0.cmp(&b.0));
    assert_eq!(region, [(1, 'l'), (2, 'x'), (1, 'm'), (5, 'z'), (0, 'r')]);
}

#[test]
fn the_right_child_is_taken_when_it_orders_first() {
    let mut region = [(0, 'r'), (2, 'l'), (1, 'm'), (3, 'x'), (5, 'z')];
    heap_pop_by(&mut region, |a, b| a.0.cmp(&b.0));
    assert_eq!(region, [(1, 'm'), (2, 'l'), (5, 'z'), (3, 'x'), (0, 'r')]);
}

#[test]
fn push_compares_along_the_path_until_the_first_that_does_not_improve() {
    let mut calls = 0;
    let mut region = [1, 2, 3, 4, 5, 6, 7, 0];
    heap_push_by(&mut region, |a, b| {
        calls += 1;
        a.cmp(b)
    });
    assert_eq!(region, [0, 1, 3, 2, 5, 6, 7, 4]);
    assert_eq!(calls, 3);

    let mut calls = 0;
    let mut region = [1, 2, 3, 4, 5, 6, 7, 8];
    heap_push_by(&mut region, |a, b| {
        calls += 1;
        a.cmp(b)
    });
    assert_eq!(region, [1, 2, 3, 4, 5, 6, 7, 8]);
    assert_eq!(calls, 1);
}

#[test]
fn pop_compares_the_children_first_and_then_the_better_with_the_parent() {
    let mut seen = Vec::new();
    let mut region = [1, 2, 3, 4, 5, 6, 7];
    heap_pop_by(&mut region, |a, b| {
        seen.push((*a, *b));
        a.cmp(b)
    });
    assert_eq!(region, [2, 4, 3, 7, 5, 6, 1]);
    assert_eq!(seen, [(3, 2), (2, 7), (5, 4), (4, 7)]);
}

#[test]
fn positions_ordered_by_a_table_outside_the_region() {
    let table = [50, 10, 40, 20, 30];
    let by_table = |a: &usize, b: &usize| table[*a].cmp(&table[*b]);

    let mut region = [1, 3, 2, 0, 4];
    heap_push_by(&mut region, by_table);
    assert_eq!(region, [1, 3, 2, 0, 4]);

    heap_pop_by(&mut region, by_table);
    assert_eq!(region, [3, 4, 2, 0, 1]);
}

#[test]
fn a_comparison_that_never_says_less_changes_nothing() {
    let mut region = [9, 1, 8, 2];
    heap_push_by(&mut region, |_, _| Ordering::Equal);
    assert_eq!(region, [9, 1, 8, 2]);
    heap_push_by(&mut region, |_, _| Ordering::Greater);
    assert_eq!(region, [9, 1, 8, 2]);
}
