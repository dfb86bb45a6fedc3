use rebit::sorted::SortedIdMap;

#[test]
fn graph_sorted_insertion() {
    // Constraint edges inserted out of order are traversed by id.
    let mut g: SortedIdMap<&str> = SortedIdMap::new();
    g.insert(100, "horizontal");
    g.insert(5, "vertical");
    let ids: Vec<u64> = g.iter().iter().map(|e| e.0).collect();
    assert_eq!(ids, vec![5, 100]);
}

#[test]
fn variable_set_sorted_insertion() {
    let mut vs: SortedIdMap<f64> = SortedIdMap::new();
    vs.insert(3, 0.0);
    vs.insert(1, 0.0);
    vs.insert(2, 0.0);
    let ids: Vec<u64> = vs.iter().iter().map(|v| v.0).collect();
    assert_eq!(ids, vec![1, 2, 3]);
    assert_eq!(vs.len(), 3);
}

#[test]
fn lookup_by_binary_search() {
    let mut m: SortedIdMap<u32> = SortedIdMap::new();
    for id in [50u64, 10, 40, 20, 30] {
        m.insert(id, id as u32 * 2);
    }
    assert_eq!(m.get(40), Some(&80));
    assert_eq!(m.get(35), None);
    assert!(m.contains(10));
    assert!(!m.contains(0));
    *m.get_mut(20).unwrap() = 7;
    assert_eq!(m.get(20), Some(&7));
    *m.at_mut(0) = 1;
    assert_eq!(m.get(10), Some(&1));
    assert!(m.get_mut(99).is_none());
    assert_eq!(m.position(50), Some(4));
    assert!(!m.is_empty());
}
