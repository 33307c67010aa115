use mem_hog::generate_random_pairs;

#[test]
fn generator_yields_exactly_the_requested_count() {
    let mut g = generate_random_pairs(5);
    let mut n = 0;
    while let Some(_pair) = g.next_pair() {
        n += 1;
        assert!(n <= 5);
    }
    assert_eq!(n, 5);
    assert!(g.next_pair().is_none());
}

#[test]
fn zero_amount_yields_nothing() {
    let mut g = generate_random_pairs(0);
    assert!(g.next_pair().is_none());
    assert!(g.next_pair().is_none());
}

#[test]
fn records_of_one_generator_share_the_filler_payload() {
    let mut g = generate_random_pairs(4);
    let (_, first) = g.next_pair().unwrap();
    while let Some((_, rec)) = g.next_pair() {
        assert_eq!(&rec.dum[..], &first.dum[..]);
    }
}
