use site_counter::visit_count::VisitCount;

#[test]
fn one_is_one() {
    let count = VisitCount::one();
    assert!(count.is_one());
    assert_eq!(count.limbs(), &vec![1u32]);
    assert_eq!(count.to_u64(), Some(1));
}

#[test]
fn increment_counts_upwards() {
    let mut count = VisitCount::one();
    count.increment();
    assert!(!count.is_one());
    assert_eq!(count.to_u64(), Some(2));
    count.increment();
    assert_eq!(count.to_u64(), Some(3));
}

#[test]
fn increment_carries_into_the_next_limb() {
    let mut count = VisitCount::from_limbs(vec![u32::MAX]);
    assert_eq!(count.to_u64(), Some(4_294_967_295));
    count.increment();
    assert_eq!(count.limbs(), &vec![0u32, 1u32]);
    assert_eq!(count.to_u64(), Some(4_294_967_296));
}

#[test]
fn increment_carries_through_a_limb_in_the_middle() {
    let mut count = VisitCount::from_limbs(vec![u32::MAX, 7]);
    count.increment();
    assert_eq!(count.limbs(), &vec![0u32, 8u32]);
    assert_eq!(count.to_u64(), Some(8 * 4_294_967_296));
}

#[test]
fn increment_does_not_overflow_at_64_bits() {
    let mut count = VisitCount::from_limbs(vec![u32::MAX, u32::MAX]);
    assert_eq!(count.to_u64(), Some(u64::MAX));
    count.increment();
    assert_eq!(count.limbs(), &vec![0u32, 0u32, 1u32]);
    assert_eq!(count.to_u64(), None);
    count.increment();
    assert_eq!(count.limbs(), &vec![1u32, 0u32, 1u32]);
}

#[test]
fn increment_of_zero_limbs_is_one() {
    let mut count = VisitCount::from_limbs(Vec::new());
    assert_eq!(count.to_u64(), Some(0));
    assert!(!count.is_one());
    count.increment();
    assert!(count.is_one());
    assert_eq!(count.limbs(), &vec![1u32]);
}

#[test]
fn is_one_ignores_high_zero_limbs() {
    assert!(VisitCount::from_limbs(vec![1, 0, 0]).is_one());
    assert!(!VisitCount::from_limbs(vec![1, 0, 1]).is_one());
    assert!(!VisitCount::from_limbs(vec![1, 1]).is_one());
    assert!(!VisitCount::from_limbs(vec![0]).is_one());
    assert!(!VisitCount::from_limbs(vec![2]).is_one());
}

#[test]
fn to_u64_reads_two_limbs() {
    assert_eq!(VisitCount::from_limbs(vec![5, 2]).to_u64(), Some(5 + 2 * 4_294_967_296));
    assert_eq!(VisitCount::from_limbs(vec![5, 2, 0, 0]).to_u64(), Some(5 + 2 * 4_294_967_296));
    assert_eq!(VisitCount::from_limbs(vec![5, 2, 0, 1]).to_u64(), None);
}
