use slice_heap::{heap_pop, heap_push, heap_sort, heapify, n_smallest};

fn holds_heap_invariant(region: &[i32]) -> bool {
    (1..region.len()).all(|i| region[(i - 1) / 2] <= region[i])
}

fn in_order(region: &[i32]) -> Vec<i32> {
    let mut v = region.to_vec();
    v.sort();
    v
}

const SAMPLES: [&[i32]; 8] = [
    &[],
    &[7],
    &[2, 1],
    &[4, 6, 7, 8, 3, 5, 9],
    &[9, 8, 7, 6, 5, 4, 3, 2, 1, 0],
    &[5, 1, 4, 1, 5, 9, 2, 6, 5, 3, 5],
    &[0, 0, 0, 0, 0],
    &[-3, 12, -7, 12, 0, 99, -7, 1, 1],
];

#[test]
fn heapify_establishes_the_heap_invariant() {
    for sample in SAMPLES {
        let mut region = sample.to_vec();
        heapify(&mut region);
        assert!(holds_heap_invariant(&region));
        assert_eq!(in_order(&region), in_order(sample));
    }
}

#[test]
fn heapify_gives_the_arrangement_of_bottom_up_construction() {
    let mut region = [4, 6, 7, 8, 3, 5, 9];
    heapify(&mut region);
    assert_eq!(region, [3, 4, 5, 8, 6, 7, 9]);

    let mut region = [9, 8, 7, 6, 5, 4, 3, 2, 1, 0];
    heapify(&mut region);
    assert_eq!(region, [0, 1, 3, 2, 5, 4, 7, 9, 6, 8]);

    let mut region = [5, 1, 4, 1, 5, 9, 2, 6, 5, 3, 5];
    heapify(&mut region);
    assert_eq!(region, [1, 1, 2, 5, 3, 9, 4, 6, 5, 5, 5]);
}

#[test]
fn heapify_leaves_a_heap_as_it_is() {
    let mut region = [1, 1, 2, 5, 3, 9, 4, 6, 5, 5, 5];
    heapify(&mut region);
    assert_eq!(region, [1, 1, 2, 5, 3, 9, 4, 6, 5, 5, 5]);
}

#[test]
fn heap_push_extends_a_heap_by_its_last_element() {
    for sample in SAMPLES {
        let mut region = sample.to_vec();
        heapify(&mut region);
        for new in [-100, 0, 3, 5, 100] {
            let mut grown = region.clone();
            grown.push(new);
            heap_push(&mut grown);
            assert!(holds_heap_invariant(&grown));
            let mut expected = sample.to_vec();
            expected.push(new);
            assert_eq!(in_order(&grown), in_order(&expected));
        }
    }
}

#[test]
fn heap_push_moves_the_new_element_along_its_path_to_the_root() {
    let mut region = [1, 3, 2, 7, 4, 5, 0];
    heap_push(&mut region);
    assert_eq!(region, [0, 3, 1, 7, 4, 5, 2]);

    let mut region = [1, 2, 3, 4, 5, 6, 7, 0];
    heap_push(&mut region);
    assert_eq!(region, [0, 1, 3, 2, 5, 6, 7, 4]);

    let mut region = [1, 2, 3, 4, 5, 6, 7, 8];
    heap_push(&mut region);
    assert_eq!(region, [1, 2, 3, 4, 5, 6, 7, 8]);
}

#[test]
fn heap_pop_puts_the_minimum_last_and_keeps_the_rest_a_heap() {
    for sample in SAMPLES {
        if sample.is_empty() {
            continue;
        }
        let mut region = sample.to_vec();
        heapify(&mut region);
        let root = region[0];
        heap_pop(&mut region);
        let last = region.len() - 1;
        assert_eq!(region[last], root);
        assert_eq!(region[last], *sample.iter().min().unwrap());
        assert!(holds_heap_invariant(&region[..last]));
        assert_eq!(in_order(&region), in_order(sample));
    }
}

#[test]
fn heap_pop_moves_the_new_root_toward_the_leaves() {
    let mut region = [1, 1, 2, 5, 3, 9, 4, 6, 5, 5, 5];
    heap_pop(&mut region);
    assert_eq!(region, [1, 3, 2, 5, 5, 9, 4, 6, 5, 5, 1]);

    let mut region = [1, 2, 3, 4, 5, 6, 7];
    heap_pop(&mut region);
    assert_eq!(region, [2, 4, 3, 7, 5, 6, 1]);
}

#[test]
fn popping_every_element_leaves_the_region_in_descending_order() {
    let mut region = [5, 1, 4, 1, 5, 9, 2, 6, 5, 3, 5];
    heapify(&mut region);
    for end in (1..=region.len()).rev() {
        heap_pop(&mut region[..end]);
    }
    assert_eq!(region, [9, 6, 5, 5, 5, 5, 4, 3, 2, 1, 1]);
}

#[test]
fn heap_sort_gives_the_elements_in_ascending_order() {
    for sample in SAMPLES {
        let mut region = sample.to_vec();
        heap_sort(&mut region);
        assert_eq!(region, in_order(sample));
    }
}

#[test]
fn heap_sort_twice_is_heap_sort_once() {
    for sample in SAMPLES {
        let mut once = sample.to_vec();
        heap_sort(&mut once);
        let mut twice = once.clone();
        heap_sort(&mut twice);
        assert_eq!(twice, once);
    }
}

#[test]
fn n_smallest_is_absent_exactly_when_the_region_is_too_short() {
    for sample in SAMPLES {
        for n in 0..sample.len() + 3 {
            let mut region = sample.to_vec();
            let front = n_smallest(&mut region, n);
            assert_eq!(front.is_none(), n > sample.len());
        }
    }
}

#[test]
fn n_smallest_returns_the_smallest_elements_with_multiplicity() {
    for sample in SAMPLES {
        for n in 0..=sample.len() {
            let mut region = sample.to_vec();
            let front = n_smallest(&mut region, n).unwrap().to_vec();
            assert_eq!(front.len(), n);
            assert_eq!(in_order(&front), in_order(sample)[..n].to_vec());
            assert_eq!(front, region[..n].to_vec());
            assert_eq!(in_order(&region), in_order(sample));
        }
    }
}

#[test]
fn n_smallest_arranges_the_region_by_repeated_construction() {
    let mut region = [5, 1, 4, 1, 5, 9, 2, 6, 5, 3, 5];
    assert_eq!(n_smallest(&mut region, 4), Some(&[1, 1, 2, 3][..]));
    assert_eq!(region, [1, 1, 2, 3, 4, 5, 5, 6, 5, 5, 9]);
}
