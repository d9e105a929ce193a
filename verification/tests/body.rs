use mirage::body::BodySet;

#[test]
fn handles_are_handed_out_in_order_and_read_back() {
    let mut set = BodySet::new();
    let a = set.add("ground");
    let b = set.add("ball");
    let c = set.add("box");
    assert_eq!((a.index(), b.index(), c.index()), (0, 1, 2));
    assert_eq!(*set.get(a), "ground");
    assert_eq!(*set.get(b), "ball");
    assert_eq!(*set.get(c), "box");
    assert_eq!(set.len(), 3);
    assert_ne!(a, b);
}

#[test]
fn adding_keeps_earlier_bodies() {
    let mut set = BodySet::new();
    let first = set.add(7u32);
    for k in 0..10u32 {
        set.add(k);
    }
    assert_eq!(*set.get(first), 7);
    assert_eq!(set.as_slice().len(), 11);
    assert_eq!(set.as_slice()[0], 7);
}

#[test]
fn contains_only_issued_handles() {
    let mut other = BodySet::new();
    let far = {
        other.add(0u8);
        other.add(0u8)
    };
    let mut set = BodySet::new();
    let near = set.add(1u8);
    assert!(set.contains(near));
    assert!(!set.contains(far));
}

#[test]
fn in_place_updates_are_kept() {
    let mut set = BodySet::new();
    let a = set.add(1i32);
    let b = set.add(2i32);
    for v in set.as_mut_slice().iter_mut() {
        *v *= 10;
    }
    assert_eq!(*set.get(a), 10);
    assert_eq!(*set.get(b), 20);
}

#[test]
fn empty_store_has_no_bodies() {
    let set: BodySet<f32> = BodySet::new();
    assert_eq!(set.len(), 0);
    assert!(set.as_slice().is_empty());
}
