use mem_hog::{InverseIndex, fill_map, fill_map_iter, fill_map_light};

#[test]
fn light_with_zero_changes_nothing() {
    let mut idx = InverseIndex::new();
    fill_map_light(&mut idx, 0);
    assert_eq!(idx.len(), 0);
    assert_eq!(idx.total_keys(), 0);
}

#[test]
fn iter_with_zero_changes_nothing() {
    let mut idx = InverseIndex::new();
    fill_map_iter(&mut idx, 0);
    assert_eq!(idx.len(), 0);
    assert_eq!(idx.total_keys(), 0);
}

#[test]
fn consume_with_zero_changes_nothing() {
    let mut idx = InverseIndex::new();
    fill_map(&mut idx, 0);
    assert_eq!(idx.len(), 0);
    assert_eq!(idx.total_keys(), 0);
}

fn check_filled(idx: &InverseIndex, n: usize) {
    assert!(idx.total_keys() <= n);
    assert!(idx.len() >= 1);
    assert!(idx.len() <= idx.total_keys());
}

#[test]
fn light_files_at_most_the_requested_keys() {
    let mut idx = InverseIndex::new();
    fill_map_light(&mut idx, 1000);
    check_filled(&idx, 1000);
}

#[test]
fn iter_files_at_most_the_requested_keys() {
    let mut idx = InverseIndex::new();
    fill_map_iter(&mut idx, 1000);
    check_filled(&idx, 1000);
}

#[test]
fn consume_files_at_most_the_requested_keys() {
    let mut idx = InverseIndex::new();
    fill_map(&mut idx, 1000);
    check_filled(&idx, 1000);
}

#[test]
fn strategies_grow_one_shared_index_alike() {
    let mut idx = InverseIndex::new();
    fill_map_light(&mut idx, 100);
    let after_light = idx.total_keys();
    fill_map_iter(&mut idx, 100);
    let after_iter = idx.total_keys();
    fill_map(&mut idx, 100);
    let after_consume = idx.total_keys();
    assert!(after_light <= 100);
    assert!(after_iter <= after_light + 100);
    assert!(after_consume <= after_iter + 100);
}
