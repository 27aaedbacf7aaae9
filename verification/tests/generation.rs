use mononoke::generation::Generation;

#[test]
fn difference_between_generations() {
    let high = Generation::new(10);
    let low = Generation::new(4);
    assert_eq!(high.difference_from(low), Some(6));
    assert_eq!(low.difference_from(high), None);
    assert_eq!(high.difference_from(high), Some(0));
}

#[test]
fn largest_generation() {
    assert_eq!(Generation::max_gen(), Generation::new(u64::MAX));
    assert_eq!(Generation::max_gen().difference_from(Generation::new(0)), Some(u64::MAX));
}

#[test]
fn generations_are_ordered_by_their_number() {
    assert!(Generation::new(1) < Generation::new(2));
    assert!(Generation::new(2) <= Generation::max_gen());
    assert_eq!(Generation::new(7).value(), 7);
    assert_eq!(Generation::max_gen().value(), u64::MAX);
}
