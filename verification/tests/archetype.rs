use ambrosia::ecs::archetype::SortedVec;

#[test]
fn archetype_test_sorted_vec_push() {
    let mut sorted = SortedVec::new();

    sorted.push(1);
    sorted.push(2);
    sorted.push(4);
    sorted.push(3);
    sorted.push(1);

    assert_eq!(sorted.len(), 4);
}

#[test]
fn archetype_test_sorted_vec_has() {
    let mut sorted = SortedVec::new();

    sorted.push(1);
    sorted.push(2);
    sorted.push(3);
    sorted.push(4);
    sorted.push(5);

    assert!(sorted.has(&1));
    assert!(sorted.has(&2));
    assert!(sorted.has(&3));
    assert!(sorted.has(&4));
    assert!(sorted.has(&5));

    assert!(!sorted.has(&0));
    assert!(!sorted.has(&-10));
    assert!(!sorted.has(&1000));
}

#[test]
fn archetype_test_sorted_vec_contains() {
    let s0: SortedVec = SortedVec::from_vec(vec![1, 2, 3, 4]);
    let s1: SortedVec = SortedVec::from_vec(vec![2, 3]);
    let s2: SortedVec = SortedVec::from_vec(vec![2, 3, 4]);
    let s3: SortedVec = SortedVec::from_vec(vec![2, 3, 4, 5]);
    let s4: SortedVec = SortedVec::from_vec(vec![0, 2, 3, 4]);

    assert!(s0.contains(&s1));
    assert!(s0.contains(&s2));
    assert!(!s0.contains(&s3));
    assert!(!s0.contains(&s4));
    assert!(s0.contains(&s1));
    assert!(s3.contains(&s1));
    assert!(s3.contains(&s2));
}
