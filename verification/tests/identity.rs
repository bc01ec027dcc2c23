use prefab_editor::identity::IdentityMap;

#[test]
fn a_bound_pair_is_found_from_both_sides() {
    let mut map = IdentityMap::new();
    assert_eq!(map.handle(1), None);
    assert_eq!(map.id(10), None);
    map.insert(1, 10);
    map.insert(2, 20);
    assert_eq!(map.handle(1), Some(10));
    assert_eq!(map.handle(2), Some(20));
    assert_eq!(map.id(10), Some(1));
    assert_eq!(map.id(20), Some(2));
    assert_eq!(map.handle(3), None);
}

#[test]
fn rebinding_removes_the_stale_pairs() {
    let mut map = IdentityMap::new();
    map.insert(1, 10);
    map.insert(2, 20);
    // Id 1 moves to a new handle: handle 10 is free again.
    map.insert(1, 11);
    assert_eq!(map.handle(1), Some(11));
    assert_eq!(map.id(10), None);
    assert_eq!(map.id(11), Some(1));
    // Handle 20 moves to a new id: id 2 has no handle any more.
    map.insert(3, 20);
    assert_eq!(map.handle(2), None);
    assert_eq!(map.handle(3), Some(20));
    assert_eq!(map.id(20), Some(3));
}
