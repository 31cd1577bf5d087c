use file_server::intervals::RangeSet;

#[test]
fn test_insert_disjoint_then_bridge() {
    let mut r = RangeSet::new();
    r.insert(0, 2);
    r.insert(4, 6);
    assert_eq!(r.parts, vec![(0, 2), (4, 6)]);
    r.insert(2, 4);
    assert_eq!(r.parts, vec![(0, 6)]);
}

#[test]
fn test_insert_overlapping() {
    let mut r = RangeSet::new();
    r.insert(3, 8);
    r.insert(5, 10);
    assert_eq!(r.parts, vec![(3, 10)]);
    r.insert(0, 4);
    assert_eq!(r.parts, vec![(0, 10)]);
}

#[test]
fn test_insert_idempotent_retry() {
    let mut r = RangeSet::new();
    r.insert(0, 5);
    r.insert(0, 5);
    assert_eq!(r.parts, vec![(0, 5)]);
}

#[test]
fn test_insert_keeps_gaps() {
    let mut r = RangeSet::new();
    r.insert(10, 20);
    r.insert(0, 5);
    r.insert(30, 40);
    assert_eq!(r.parts, vec![(0, 5), (10, 20), (30, 40)]);
}

#[test]
fn test_is_complete() {
    let mut r = RangeSet::new();
    assert!(!r.is_complete(5));
    r.insert(1, 5);
    assert!(!r.is_complete(5));
    r.insert(0, 1);
    assert!(r.is_complete(5));
    assert!(!r.is_complete(6));
}
