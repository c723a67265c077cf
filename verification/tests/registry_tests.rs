use wake_bench::registry::WakeRegistry;

#[test]
fn insert_then_drain_returns_single_index() {
    // Scenario: the registry starts empty, one index is inserted, the
    // first drain returns it and the second drain returns nothing.
    let mut reg = WakeRegistry::new();
    assert_eq!(reg.len(), 0);
    reg.insert(3);
    assert_eq!(reg.drain(), vec![3]);
    assert_eq!(reg.drain(), Vec::<usize>::new());
}

#[test]
fn drain_twice_without_new_inserts() {
    let mut reg = WakeRegistry::new();
    reg.insert(7);
    reg.insert(1);
    reg.insert(4);
    let first = reg.drain();
    assert_eq!(first, vec![7, 1, 4]);
    assert!(!first.is_empty());
    let second = reg.drain();
    assert!(second.is_empty());
}

#[test]
fn duplicates_are_kept() {
    let mut reg = WakeRegistry::new();
    reg.insert(2);
    reg.insert(2);
    reg.insert(5);
    reg.insert(2);
    assert_eq!(reg.len(), 4);
    assert_eq!(reg.snapshot(), vec![2, 2, 5, 2]);
    assert_eq!(reg.drain(), vec![2, 2, 5, 2]);
    assert_eq!(reg.len(), 0);
}
