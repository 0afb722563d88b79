use precise_isovist::IdSet;

#[test]
fn insert_reports_new_members() {
    let mut s = IdSet::new();
    assert_eq!(s.len(), 0);
    assert!(s.insert(4));
    assert!(!s.insert(4));
    assert!(s.insert(9));
    assert_eq!(s.len(), 2);
    assert!(s.contains(4));
    assert!(s.contains(9));
    assert!(!s.contains(5));
}

#[test]
fn extend_is_union() {
    let mut a = IdSet::new();
    a.insert(1);
    a.insert(2);
    let mut b = IdSet::new();
    b.insert(2);
    b.insert(3);
    a.extend(&b);
    assert_eq!(a.len(), 3);
    assert!(a.contains(1) && a.contains(2) && a.contains(3));
    assert_eq!(b.len(), 2);
}

#[test]
fn intersects_and_subsets() {
    let mut a = IdSet::new();
    a.insert(1);
    a.insert(2);
    let b = IdSet::singleton(2);
    let c = IdSet::singleton(3);
    assert!(a.intersects(&b));
    assert!(!a.intersects(&c));
    assert!(b.is_subset_of(&a));
    assert!(!a.is_subset_of(&b));
}

#[test]
fn equality_ignores_insertion_order() {
    let mut a = IdSet::new();
    a.insert(1);
    a.insert(2);
    let mut b = IdSet::new();
    b.insert(2);
    b.insert(1);
    assert_eq!(a, b);
    assert_eq!(a.clone(), a);
    b.insert(3);
    assert_ne!(a, b);
}
