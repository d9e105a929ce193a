use mirage::body::BodySet;
use mirage::solver::{ContactKey, ImpulseCache};

fn key(a: u32, b: u32, feature: u32) -> ContactKey {
    ContactKey { body_a: a, body_b: b, feature }
}

#[test]
fn matched_contact_is_seeded() {
    let mut cache: ImpulseCache<(f32, f32)> = ImpulseCache::new();
    assert_eq!(cache.find(key(0, 1, 0)), None, "nothing to seed from on step one");
    cache.replace(vec![(key(0, 1, 0), (2.5, -0.5)), (key(0, 1, 1), (1.0, 0.25))]);
    assert_eq!(cache.len(), 2);
    assert_eq!(cache.find(key(0, 1, 0)), Some((2.5, -0.5)));
    assert_eq!(cache.find(key(0, 1, 1)), Some((1.0, 0.25)));
}

#[test]
fn vanished_contact_is_forgotten() {
    let mut cache = ImpulseCache::new();
    cache.replace(vec![(key(0, 1, 0), 3.0f32)]);
    assert!(cache.len() > 0);
    cache.replace(vec![]);
    assert_eq!(cache.len(), 0, "stale impulses were kept");
    assert_eq!(cache.find(key(0, 1, 0)), None);
}

#[test]
fn new_contact_starts_at_zero() {
    let mut cache = ImpulseCache::new();
    cache.replace(vec![(key(0, 1, 0), 3.0f32)]);
    assert_eq!(cache.find(key(0, 1, 1000)), None);
    assert_eq!(cache.find(key(1, 0, 0)), None, "body order is part of the key");
}

#[test]
fn first_matching_entry_wins() {
    let mut cache = ImpulseCache::new();
    cache.replace(vec![(key(2, 3, 7), 1u32), (key(2, 3, 7), 2u32)]);
    assert_eq!(cache.find(key(2, 3, 7)), Some(1));
}

#[test]
fn seeds_follow_contact_order() {
    let mut cache = ImpulseCache::new();
    cache.replace(vec![(key(0, 1, 0), 'a'), (key(1, 2, 0), 'b')]);
    let seeds = cache.seeds(&vec![key(1, 2, 0), key(5, 6, 0), key(0, 1, 0)]);
    assert_eq!(seeds, vec![Some('b'), None, Some('a')]);
}

#[test]
fn contact_key_is_built_from_handles() {
    let mut set = BodySet::new();
    let a = set.add(());
    let b = set.add(());
    assert_eq!(ContactKey::new(a, b, 9), key(0, 1, 9));
}
