use mem_hog::InverseIndex;

fn key(b: u8) -> [u8; 16] {
    [b; 16]
}

fn val(b: u8) -> [u8; 20] {
    [b; 20]
}

#[test]
fn empty_index_has_nothing() {
    let idx = InverseIndex::new();
    assert_eq!(idx.len(), 0);
    assert_eq!(idx.total_keys(), 0);
}

#[test]
fn insert_creates_singleton_set() {
    let mut idx = InverseIndex::new();
    idx.insert_pair(key(1), val(9));
    assert_eq!(idx.len(), 1);
    assert_eq!(idx.total_keys(), 1);
}

#[test]
fn duplicate_pair_is_not_counted_twice() {
    let mut idx = InverseIndex::new();
    idx.insert_pair(key(1), val(9));
    idx.insert_pair(key(1), val(9));
    assert_eq!(idx.len(), 1);
    assert_eq!(idx.total_keys(), 1);
}

#[test]
fn two_keys_under_one_value() {
    let mut idx = InverseIndex::new();
    idx.insert_pair(key(1), val(9));
    idx.insert_pair(key(2), val(9));
    assert_eq!(idx.len(), 1);
    assert_eq!(idx.total_keys(), 2);
}

#[test]
fn one_key_under_two_values() {
    let mut idx = InverseIndex::new();
    idx.insert_pair(key(1), val(8));
    idx.insert_pair(key(1), val(9));
    assert_eq!(idx.len(), 2);
    assert_eq!(idx.total_keys(), 2);
}

#[test]
fn clear_empties_regardless_of_content() {
    let mut idx = InverseIndex::new();
    for b in 0..50u8 {
        idx.insert_pair(key(b), val(b % 7));
    }
    assert_eq!(idx.len(), 7);
    assert_eq!(idx.total_keys(), 50);
    idx.clear();
    assert_eq!(idx.len(), 0);
    assert_eq!(idx.total_keys(), 0);
    idx.clear();
    assert_eq!(idx.len(), 0);
    assert_eq!(idx.total_keys(), 0);
}

#[test]
fn clear_then_refill_behaves_like_fresh() {
    let mut cleared = InverseIndex::new();
    cleared.insert_pair(key(1), val(1));
    cleared.clear();
    let mut fresh = InverseIndex::new();
    cleared.insert_pair(key(3), val(4));
    fresh.insert_pair(key(3), val(4));
    assert_eq!(cleared.len(), fresh.len());
    assert_eq!(cleared.total_keys(), fresh.total_keys());
}
