//! Narrowphase dispatch and manifold assembly.
//!
//! The geometric tests themselves (circle–circle, circle–polygon and
//! polygon–polygon) are floating point and run outside this crate; this
//! module decides which test a shape pair gets, in which argument order, and
//! how its result is turned into a manifold whose normals point from body `a`
//! to body `b`.
pub mod feature;
pub mod manifold;

use vstd::prelude::*;
use crate::body::BodyId;
use crate::broadphase::lists_candidates;
use crate::collision::manifold::Manifold;

verus! {

/// The two kinds of shape a body can have.
#[derive(Clone, Copy, Debug, PartialEq, Eq, Structural)]
pub enum ShapeKind {
    Circle,
    Polygon,
}

/// The three narrowphase routines. Each takes two bodies `(first, second)`:
/// - `CircleCircle`: two circles; normal from `first` toward `second`;
/// - `CirclePolygon`: a circle then a polygon; normal points away from the
///   polygon's face or corner, i.e. from `second` toward `first`;
/// - `PolygonPolygon`: two polygons; normal from `first` toward `second`.
#[derive(Clone, Copy, Debug, PartialEq, Eq, Structural)]
pub enum Routine {
    CircleCircle,
    CirclePolygon,
    PolygonPolygon,
}

/// How to run the narrowphase on a candidate pair `(a, b)`.
#[derive(Clone, Copy, Debug, PartialEq, Eq, Structural)]
pub struct Dispatch {
    pub routine: Routine,
    /// Call the routine as `(b, a)` rather than `(a, b)`.
    pub swap_args: bool,
    /// Negate the normal of every contact the routine returns (its feature
    /// id and everything else is kept).
    pub negate_normal: bool,
}

/// The shapes a routine expects, as `(first, second)`.
pub open spec fn routine_shapes(r: Routine) -> (ShapeKind, ShapeKind) {
    match r {
        Routine::CircleCircle => (ShapeKind::Circle, ShapeKind::Circle),
        Routine::CirclePolygon => (ShapeKind::Circle, ShapeKind::Polygon),
        Routine::PolygonPolygon => (ShapeKind::Polygon, ShapeKind::Polygon),
    }
}

/// Whether a routine's normal points from its first argument to its second.
pub open spec fn normal_from_first(r: Routine) -> bool {
    match r {
        Routine::CirclePolygon => false,
        _ => true,
    }
}

/// The routine receives bodies of the shapes it expects.
pub open spec fn arguments_fit(d: Dispatch, kind_a: ShapeKind, kind_b: ShapeKind) -> bool {
    if d.swap_args {
        routine_shapes(d.routine) == (kind_b, kind_a)
    } else {
        routine_shapes(d.routine) == (kind_a, kind_b)
    }
}

/// After the optional negation, the reported normal points from `a` to `b`.
pub open spec fn normal_points_a_to_b(d: Dispatch) -> bool {
    // The raw normal points a → b exactly when "from first" and "a is first"
    // agree; negation reverses it.
    (normal_from_first(d.routine) == !d.swap_args) != d.negate_normal
}

/// Chooses the narrowphase test for a candidate pair whose bodies have
/// shapes `kind_a` and `kind_b`: circle–circle directly, circle–polygon with
/// the normal negated, polygon–circle with the arguments swapped, and
/// polygon–polygon directly.
pub fn dispatch(kind_a: ShapeKind, kind_b: ShapeKind) -> (d: Dispatch)
    ensures
        arguments_fit(d, kind_a, kind_b),
        normal_points_a_to_b(d),
        d == (match (kind_a, kind_b) {
            (ShapeKind::Circle, ShapeKind::Circle) => Dispatch {
                routine: Routine::CircleCircle,
                swap_args: false,
                negate_normal: false,
            },
            (ShapeKind::Circle, ShapeKind::Polygon) => Dispatch {
                routine: Routine::CirclePolygon,
                swap_args: false,
                negate_normal: true,
            },
            (ShapeKind::Polygon, ShapeKind::Circle) => Dispatch {
                routine: Routine::CirclePolygon,
                swap_args: true,
                negate_normal: false,
            },
            (ShapeKind::Polygon, ShapeKind::Polygon) => Dispatch {
                routine: Routine::PolygonPolygon,
                swap_args: false,
                negate_normal: false,
            },
        }),
{
    match (kind_a, kind_b) {
        (ShapeKind::Circle, ShapeKind::Circle) => Dispatch {
            routine: Routine::CircleCircle,
            swap_args: false,
            negate_normal: false,
        },
        (ShapeKind::Circle, ShapeKind::Polygon) => Dispatch {
            routine: Routine::CirclePolygon,
            swap_args: false,
            negate_normal: true,
        },
        (ShapeKind::Polygon, ShapeKind::Circle) => Dispatch {
            routine: Routine::CirclePolygon,
            swap_args: true,
            negate_normal: false,
        },
        (ShapeKind::Polygon, ShapeKind::Polygon) => Dispatch {
            routine: Routine::PolygonPolygon,
            swap_args: false,
            negate_normal: false,
        },
    }
}

/// Whether the narrowphase result for a pair produces a manifold: it found
/// contact points, and at least one.
pub open spec fn produces_manifold<P>(found: Option<Vec<P>>) -> bool {
    found matches Some(points) && points@.len() > 0
}

/// The manifolds, as `(slot of a, slot of b, points)`, that candidate pairs
/// `pairs` with narrowphase results `found` (one per pair, same order) give:
/// one per pair whose result produces a manifold, in pair order.
pub open spec fn manifolds_for<P>(
    pairs: Seq<(usize, usize)>,
    found: Seq<Option<Vec<P>>>,
) -> Seq<(nat, nat, Seq<P>)>
    decreases pairs.len(),
{
    if pairs.len() == 0 || found.len() == 0 {
        Seq::empty()
    } else {
        let rest = manifolds_for(pairs.drop_last(), found.drop_last());
        if produces_manifold(found.last()) {
            rest.push((pairs.last().0 as nat, pairs.last().1 as nat, found.last()->0@))
        } else {
            rest
        }
    }
}

/// The manifold `(slot of a, slot of b, points)` that candidate pair `k`
/// gives when its narrowphase result has points.
pub open spec fn pair_manifold<P>(
    pairs: Seq<(usize, usize)>,
    found: Seq<Option<Vec<P>>>,
    k: int,
) -> (nat, nat, Seq<P>) {
    (pairs[k].0 as nat, pairs[k].1 as nat, found[k]->0@)
}

/// `src[m]` is the candidate pair that manifold `ms[m]` comes from, and
/// `src` pairs the manifolds one-to-one, in order, with exactly the candidate
/// pairs whose narrowphase result has points.
pub open spec fn is_manifold_source<P>(
    pairs: Seq<(usize, usize)>,
    found: Seq<Option<Vec<P>>>,
    ms: Seq<(nat, nat, Seq<P>)>,
    src: Seq<int>,
) -> bool {
    &&& src.len() == ms.len()
    &&& forall|m1: int, m2: int| 0 <= m1 < m2 < src.len() ==> #[trigger] src[m1] < #[trigger] src[m2]
    &&& forall|m: int|
        0 <= m < src.len() ==> {
            &&& 0 <= #[trigger] src[m] < pairs.len()
            &&& produces_manifold(found[src[m]])
            &&& ms[m] == pair_manifold(pairs, found, src[m])
        }
    &&& forall|k: int|
        0 <= k < pairs.len() && #[trigger] produces_manifold(found[k]) ==> exists|m: int|
            0 <= m < src.len() && #[trigger] src[m] == k
}

/// The manifolds of a step are exactly one per touching candidate pair:
/// every pair whose narrowphase result has points gives the manifold
/// `(i, j, points)`, whatever the other pairs gave and whatever other
/// manifolds share its bodies; every manifold comes from such a pair; and
/// they come in pair order, so there are as many manifolds as touching pairs.
pub proof fn lemma_one_manifold_per_touching_pair<P>(
    pairs: Seq<(usize, usize)>,
    found: Seq<Option<Vec<P>>>,
)
    requires
        pairs.len() == found.len(),
    ensures
        exists|src: Seq<int>| is_manifold_source(pairs, found, manifolds_for(pairs, found), src),
        forall|k: int|
            0 <= k < pairs.len() && #[trigger] produces_manifold(found[k]) ==> exists|m: int|
                0 <= m < manifolds_for(pairs, found).len() && #[trigger] manifolds_for(
                    pairs,
                    found,
                )[m] == pair_manifold(pairs, found, k),
{
    let src = lemma_manifold_sources(pairs, found);
    let ms = manifolds_for(pairs, found);
    assert forall|k: int|
        0 <= k < pairs.len() && #[trigger] produces_manifold(found[k]) implies exists|m: int|
            0 <= m < ms.len() && #[trigger] ms[m] == pair_manifold(pairs, found, k) by {
        let m = choose|m: int| 0 <= m < src.len() && #[trigger] src[m] == k;
        assert(ms[m] == pair_manifold(pairs, found, k));
    }
}

proof fn lemma_manifold_sources<P>(pairs: Seq<(usize, usize)>, found: Seq<Option<Vec<P>>>) -> (src:
    Seq<int>)
    requires
        pairs.len() == found.len(),
    ensures
        is_manifold_source(pairs, found, manifolds_for(pairs, found), src),
    decreases pairs.len(),
{
    if pairs.len() == 0 {
        Seq::empty()
    } else {
        let n = pairs.len() as int;
        let sp = pairs.drop_last();
        let sf = found.drop_last();
        let prev = lemma_manifold_sources(sp, sf);
        let rest = manifolds_for(sp, sf);
        assert forall|k: int| 0 <= k < n - 1 implies #[trigger] sp[k] == pairs[k] && sf[k]
            == found[k] by {}
        let ms = manifolds_for(pairs, found);
        if produces_manifold(found[n - 1]) {
            let src = prev.push(n - 1);
            assert(ms == rest.push(pair_manifold(pairs, found, n - 1)));
            assert forall|m: int| 0 <= m < src.len() implies {
                &&& 0 <= #[trigger] src[m] < pairs.len()
                &&& produces_manifold(found[src[m]])
                &&& ms[m] == pair_manifold(pairs, found, src[m])
            } by {
                if m < prev.len() {
                    assert(src[m] == prev[m]);
                    assert(sp[prev[m]] == pairs[prev[m]]);
                    assert(sf[prev[m]] == found[prev[m]]);
                }
            }
            assert forall|m1: int, m2: int| 0 <= m1 < m2 < src.len() implies #[trigger] src[m1]
                < #[trigger] src[m2] by {
                assert(src[m1] == prev[m1]);
                assert(0 <= prev[m1] < sp.len());
                if m2 < prev.len() {
                    assert(src[m2] == prev[m2]);
                }
            }
            assert forall|k: int|
                0 <= k < pairs.len() && #[trigger] produces_manifold(found[k]) implies exists|m: int|
                0 <= m < src.len() && #[trigger] src[m] == k by {
                if k < n - 1 {
                    assert(sf[k] == found[k]);
                    assert(produces_manifold(sf[k]));
                    let m = choose|m: int| 0 <= m < prev.len() && #[trigger] prev[m] == k;
                    assert(src[m] == k);
                } else {
                    assert(src[prev.len() as int] == k);
                }
            }
            src
        } else {
            assert(ms == rest);
            assert forall|m: int| 0 <= m < prev.len() implies {
                &&& 0 <= #[trigger] prev[m] < pairs.len()
                &&& produces_manifold(found[prev[m]])
                &&& ms[m] == pair_manifold(pairs, found, prev[m])
            } by {
                assert(sp[prev[m]] == pairs[prev[m]]);
                assert(sf[prev[m]] == found[prev[m]]);
            }
            assert forall|k: int|
                0 <= k < pairs.len() && #[trigger] produces_manifold(found[k]) implies exists|m: int|
                0 <= m < prev.len() && #[trigger] prev[m] == k by {
                assert(k < n - 1);
                assert(sf[k] == found[k]);
                assert(produces_manifold(sf[k]));
            }
            prev
        }
    }
}

/// The views of a list of manifolds.
pub open spec fn manifold_views<P>(ms: Seq<Manifold<P>>) -> Seq<(nat, nat, Seq<P>)> {
    ms.map_values(|m: Manifold<P>| m@)
}

/// Assembles the manifolds of one step from the candidate pairs and the
/// narrowphase result of each pair: a pair `(i, j)` whose result has points
/// becomes a manifold between bodies `i` and `j`; pairs with no result or an
/// empty one are dropped. Order is kept.
pub fn collect_manifolds<P>(pairs: &Vec<(usize, usize)>, found: Vec<Option<Vec<P>>>) -> (ms: Vec<
    Manifold<P>,
>)
    requires
        pairs@.len() == found@.len(),
        forall|k: int| 0 <= k < pairs@.len() ==> (#[trigger] pairs@[k]).1 <= u32::MAX,
        forall|k: int| 0 <= k < pairs@.len() ==> (#[trigger] pairs@[k]).0 <= u32::MAX,
    ensures
        manifold_views(ms@) == manifolds_for(pairs@, found@),
        forall|k: int|
            0 <= k < pairs@.len() && #[trigger] produces_manifold(found@[k]) ==> exists|m: int|
                0 <= m < ms@.len() && (#[trigger] ms@[m])@ == pair_manifold(pairs@, found@, k),
        exists|src: Seq<int>| is_manifold_source(pairs@, found@, manifold_views(ms@), src),
{
    let ghost input_found = found@;
    let mut ms: Vec<Manifold<P>> = Vec::new();
    let ghost all_found = found@;
    let mut k: usize = 0;
    for result in it: found
        invariant
            pairs@.len() == all_found.len(),
            it.seq() == all_found,
            k == it.index(),
            k <= pairs@.len(),
            forall|q: int| 0 <= q < pairs@.len() ==> (#[trigger] pairs@[q]).1 <= u32::MAX,
            forall|q: int| 0 <= q < pairs@.len() ==> (#[trigger] pairs@[q]).0 <= u32::MAX,
            manifold_views(ms@) == manifolds_for(
                pairs@.subrange(0, k as int),
                all_found.subrange(0, k as int),
            ),
    {
        assert(k < pairs.len());
        let ghost before = ms@;
        let ghost r = result;
        assert(pairs@.subrange(0, k + 1).drop_last() == pairs@.subrange(0, k as int));
        assert(all_found.subrange(0, k + 1).drop_last() == all_found.subrange(0, k as int));
        assert(all_found[k as int] == r);
        let (i, j) = pairs[k];
        if let Some(points) = result {
            if points.len() > 0 {
                ms.push(
                    Manifold {
                        body_a: BodyId::from_index(i),
                        body_b: BodyId::from_index(j),
                        points,
                    },
                );
                assert(manifold_views(ms@) == manifold_views(before).push(ms@[before.len() as int]@));
            }
        }
        k += 1;
    }
    assert(pairs@.subrange(0, k as int) == pairs@);
    assert(all_found.subrange(0, k as int) == all_found);
    proof {
        lemma_one_manifold_per_touching_pair(pairs@, input_found);
        let views = manifold_views(ms@);
        assert forall|q: int|
            0 <= q < pairs@.len() && #[trigger] produces_manifold(input_found[q]) implies exists|m: int|
            0 <= m < ms@.len() && (#[trigger] ms@[m])@ == pair_manifold(pairs@, input_found, q) by {
            let m = choose|m: int|
                0 <= m < views.len() && #[trigger] views[m] == pair_manifold(pairs@, input_found, q);
            assert(views[m] == ms@[m]@);
        }
    }
    ms
}

/// Every manifold built from candidate pairs names two different bodies,
/// `a` before `b` in handle order.
pub proof fn lemma_manifold_bodies_ordered<P>(
    overlap: Seq<Vec<bool>>,
    pairs: Seq<(usize, usize)>,
    found: Seq<Option<Vec<P>>>,
)
    requires
        lists_candidates(overlap, pairs),
    ensures
        forall|k: int|
            0 <= k < manifolds_for(pairs, found).len() ==> (#[trigger] manifolds_for(
                pairs,
                found,
            )[k]).0 < manifolds_for(pairs, found)[k].1,
{
    assert forall|k: int| 0 <= k < pairs.len() implies (#[trigger] pairs[k]).0 < pairs[k].1 by {
        assert(crate::broadphase::is_candidate(overlap, pairs[k]));
    }
    lemma_ordered_pairs_give_ordered_manifolds(pairs, found);
}

proof fn lemma_ordered_pairs_give_ordered_manifolds<P>(
    pairs: Seq<(usize, usize)>,
    found: Seq<Option<Vec<P>>>,
)
    requires
        forall|k: int| 0 <= k < pairs.len() ==> (#[trigger] pairs[k]).0 < pairs[k].1,
    ensures
        forall|k: int|
            0 <= k < manifolds_for(pairs, found).len() ==> (#[trigger] manifolds_for(
                pairs,
                found,
            )[k]).0 < manifolds_for(pairs, found)[k].1,
    decreases pairs.len(),
{
    if pairs.len() > 0 && found.len() > 0 {
        let shorter = pairs.drop_last();
        assert forall|k: int| 0 <= k < shorter.len() implies (#[trigger] shorter[k]).0
            < shorter[k].1 by {
            assert(shorter[k] == pairs[k]);
        }
        lemma_ordered_pairs_give_ordered_manifolds(shorter, found.drop_last());
        let last = pairs[pairs.len() - 1];
        assert(last.0 < last.1);
        let rest = manifolds_for(shorter, found.drop_last());
        let all = manifolds_for(pairs, found);
        assert forall|k: int| 0 <= k < all.len() implies (#[trigger] all[k]).0 < all[k].1 by {
            if k < rest.len() {
                assert(all[k] == rest[k]);
            }
        }
    }
}

} // verus!
