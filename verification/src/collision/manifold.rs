//! Contact manifolds: the contact points found between one pair of bodies.
use vstd::prelude::*;
use crate::body::BodyId;

verus! {

/// The contact points between bodies `body_a` and `body_b`, with every
/// point's normal directed from `body_a` toward `body_b`. The point type is
/// left to the caller (it carries the floating-point geometry).
pub struct Manifold<P> {
    pub body_a: BodyId,
    pub body_b: BodyId,
    pub points: Vec<P>,
}

impl<P> View for Manifold<P> {
    /// `(slot of body_a, slot of body_b, points)`.
    type V = (nat, nat, Seq<P>);

    open spec fn view(&self) -> (nat, nat, Seq<P>) {
        (self.body_a.slot(), self.body_b.slot(), self.points@)
    }
}

} // verus!
