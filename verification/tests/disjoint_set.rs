use atlas_packer::disjoint_set::DisjointSet;

#[test]
fn test_disjoint_set_unite() {
    let mut ds = DisjointSet::new(5);
    ds.unite(0, 1);
    ds.unite(3, 4);
    ds.unite(1, 2);
    assert!(ds.is_same(0, 2));
    assert!(!ds.is_same(0, 3));

    ds.unite(0, 3);
    assert!(ds.is_same(0, 4));
}

#[test]
fn unite_merges_all_five_elements() {
    let mut ds = DisjointSet::new(5);
    ds.unite(0, 1);
    ds.unite(3, 4);
    ds.unite(1, 2);
    // {0, 1, 2} and {3, 4} are separate groups before the last unite.
    for a in [0usize, 1, 2] {
        for b in [0usize, 1, 2] {
            assert!(ds.is_same(a, b));
        }
        for b in [3usize, 4] {
            assert!(!ds.is_same(a, b));
        }
    }
    assert!(ds.is_same(3, 4));

    ds.unite(0, 3);
    for a in 0..5 {
        for b in 0..5 {
            assert!(ds.is_same(a, b));
        }
    }
}

#[test]
fn new_elements_are_singletons() {
    let ds = DisjointSet::new(3);
    assert_eq!(ds.root(0), 0);
    assert_eq!(ds.root(1), 1);
    assert_eq!(ds.root(2), 2);
    assert!(!ds.is_same(0, 1));
    assert!(ds.is_same(2, 2));
}

#[test]
fn compress_keeps_representatives() {
    let mut ds = DisjointSet::new(6);
    ds.unite(0, 1);
    ds.unite(1, 2);
    ds.unite(4, 5);
    let roots_before: Vec<usize> = (0..6).map(|i| ds.root(i)).collect();
    ds.compress();
    let roots_after: Vec<usize> = (0..6).map(|i| ds.root(i)).collect();
    assert_eq!(roots_before, roots_after);
    assert!(ds.is_same(0, 2));
    assert!(!ds.is_same(2, 4));
}
