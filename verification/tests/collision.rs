use mirage::body::BodySet;
use mirage::collision::feature::{pack_feature, CIRCLE_FEATURE};
use mirage::collision::{collect_manifolds, dispatch, Dispatch, Routine, ShapeKind};

#[test]
fn circle_circle_is_dispatched_directly() {
    assert_eq!(
        dispatch(ShapeKind::Circle, ShapeKind::Circle),
        Dispatch { routine: Routine::CircleCircle, swap_args: false, negate_normal: false }
    );
}

#[test]
fn circle_then_polygon_negates_the_normal() {
    assert_eq!(
        dispatch(ShapeKind::Circle, ShapeKind::Polygon),
        Dispatch { routine: Routine::CirclePolygon, swap_args: false, negate_normal: true }
    );
}

#[test]
fn polygon_then_circle_swaps_the_arguments() {
    assert_eq!(
        dispatch(ShapeKind::Polygon, ShapeKind::Circle),
        Dispatch { routine: Routine::CirclePolygon, swap_args: true, negate_normal: false }
    );
}

#[test]
fn polygon_polygon_is_dispatched_directly() {
    assert_eq!(
        dispatch(ShapeKind::Polygon, ShapeKind::Polygon),
        Dispatch { routine: Routine::PolygonPolygon, swap_args: false, negate_normal: false }
    );
}

#[test]
fn circle_contacts_use_feature_zero() {
    assert_eq!(CIRCLE_FEATURE, 0);
}

#[test]
fn feature_fields_land_in_their_bits() {
    assert_eq!(pack_feature(true, 2, 3, 1), 0x0102_0301);
    assert_eq!(pack_feature(false, 0, 0, 0), 0);
    assert_eq!(pack_feature(false, 255, 255, 255), 0x00FF_FFFF);
    assert_eq!(pack_feature(true, 0, 0, 0), 1 << 24);
}

#[test]
fn the_two_clipped_endpoints_get_different_features() {
    for flip in [false, true] {
        for r in 0..6 {
            for i in 0..6 {
                assert_ne!(pack_feature(flip, r, i, 0), pack_feature(flip, r, i, 1));
            }
        }
    }
}

#[test]
fn flip_flag_distinguishes_features() {
    assert_ne!(pack_feature(false, 1, 2, 0), pack_feature(true, 1, 2, 0));
}

#[test]
fn face_indices_are_kept_to_eight_bits() {
    assert_eq!(pack_feature(false, 256 + 4, 512 + 5, 256 + 1), pack_feature(false, 4, 5, 1));
}

#[test]
fn manifolds_keep_pairs_with_points_in_order() {
    let pairs = vec![(0usize, 1usize), (0, 2), (1, 2), (2, 3)];
    let found = vec![Some(vec!['p', 'q']), None, Some(vec![]), Some(vec!['r'])];
    let ms = collect_manifolds(&pairs, found);
    assert_eq!(ms.len(), 2);
    assert_eq!((ms[0].body_a.index(), ms[0].body_b.index()), (0, 1));
    assert_eq!(ms[0].points, vec!['p', 'q']);
    assert_eq!((ms[1].body_a.index(), ms[1].body_b.index()), (2, 3));
    assert_eq!(ms[1].points, vec!['r']);
}

#[test]
fn no_contacts_give_no_manifolds() {
    let pairs = vec![(0usize, 1usize)];
    let found: Vec<Option<Vec<u8>>> = vec![None];
    assert!(collect_manifolds(&pairs, found).is_empty());
    assert!(collect_manifolds::<u8>(&vec![], vec![]).is_empty());
}

#[test]
fn manifold_handles_name_the_store_slots() {
    let mut set = BodySet::new();
    let a = set.add(());
    let b = set.add(());
    let ms = collect_manifolds(&vec![(0usize, 1usize)], vec![Some(vec![1u8])]);
    assert_eq!(ms[0].body_a, a);
    assert_eq!(ms[0].body_b, b);
}
