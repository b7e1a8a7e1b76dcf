use space_rts::carrying::Carrying;

#[test]
fn priority_ships_go_first_in_loading_order() {
    let mut hangar = Carrying::new();
    assert!(hangar.checked_push(1, false));
    assert!(hangar.checked_push(2, true));
    assert!(hangar.checked_push(3, false));
    assert!(hangar.checked_push(4, true));
    assert_eq!(hangar.iter(), vec![2, 4, 1, 3]);
    assert_eq!(hangar.len(), 4);
    assert!(!hangar.is_empty());
}

#[test]
fn full_hangar_refuses() {
    let mut hangar = Carrying::default();
    assert_eq!(hangar.capacity(), 100);
    for i in 0..100 {
        assert!(hangar.checked_push(i, i % 3 == 0));
    }
    assert!(hangar.is_full());
    assert!(!hangar.checked_push(1000, true));
    assert!(!hangar.checked_push(1001, false));
    assert_eq!(hangar.len(), 100);
    let order = hangar.iter();
    let priority: Vec<u64> = (0..100).filter(|i| i % 3 == 0).collect();
    let rest: Vec<u64> = (0..100).filter(|i| i % 3 != 0).collect();
    assert_eq!(order, [priority, rest].concat());
}

#[test]
fn drain_empties_in_order() {
    let mut hangar = Carrying::new();
    assert!(hangar.checked_push(5, false));
    assert!(hangar.checked_push(6, true));
    assert_eq!(hangar.drain(), vec![6, 5]);
    assert!(hangar.is_empty());
    assert_eq!(hangar.drain(), Vec::<u64>::new());
}
