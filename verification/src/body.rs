//! Body handles and the ordered store a world keeps its bodies in.
use vstd::prelude::*;

verus! {

/// Opaque handle identifying a body within the store that created it.
/// Only ever constructed by `BodySet::add` (and by contact detection, from a
/// body's position in the store).
#[derive(Clone, Copy, Debug, PartialEq, Eq, Structural, Hash)]
pub struct BodyId(pub(crate) u32);

impl BodyId {
    /// The position in its store that this handle names.
    pub closed spec fn slot(self) -> nat {
        self.0 as nat
    }

    /// The handle of the body at position `index` of a store.
    pub(crate) fn from_index(index: usize) -> (id: BodyId)
        requires
            index <= u32::MAX,
        ensures
            id.slot() == index,
    {
        BodyId(index as u32)
    }

    /// The handle as the 32-bit number it is stored as.
    pub(crate) fn raw(self) -> (r: u32)
        ensures
            r == self.slot(),
    {
        self.0
    }

    /// The position in its store that this handle names.
    pub fn index(self) -> (i: usize)
        ensures
            i == self.slot(),
    {
        self.0 as usize
    }
}

/// The bodies of a world, in the order they were added. A body's handle is
/// its position in this order, so handles are handed out as `0, 1, 2, ...`
/// and never reused.
pub struct BodySet<B> {
    bodies: Vec<B>,
}

impl<B> View for BodySet<B> {
    type V = Seq<B>;

    closed spec fn view(&self) -> Seq<B> {
        self.bodies@
    }
}

impl<B> BodySet<B> {
    /// An empty store.
    pub fn new() -> (s: Self)
        ensures
            s@ == Seq::<B>::empty(),
    {
        BodySet { bodies: Vec::new() }
    }

    /// Number of bodies held.
    pub fn len(&self) -> (n: usize)
        ensures
            n == self@.len(),
    {
        self.bodies.len()
    }

    /// Whether `id` names a body of this store.
    pub fn contains(&self, id: BodyId) -> (b: bool)
        ensures
            b == (id.slot() < self@.len()),
    {
        id.index() < self.bodies.len()
    }

    /// Appends `body` and returns its handle: the number of bodies held
    /// before the call. Every body already held keeps its handle and value.
    pub fn add(&mut self, body: B) -> (id: BodyId)
        requires
            old(self)@.len() <= u32::MAX,
        ensures
            id.slot() == old(self)@.len(),
            final(self)@ == old(self)@.push(body),
    {
        let id = BodyId::from_index(self.bodies.len());
        self.bodies.push(body);
        id
    }

    /// The body named by `id`.
    pub fn get(&self, id: BodyId) -> (body: &B)
        requires
            id.slot() < self@.len(),
        ensures
            *body == self@[id.slot() as int],
    {
        &self.bodies[id.index()]
    }

    /// All bodies, in handle order.
    pub fn as_slice(&self) -> (s: &[B])
        ensures
            s@ == self@,
    {
        self.bodies.as_slice()
    }

    /// All bodies, in handle order, for in-place update. The store ends up
    /// holding exactly what the slice holds when the borrow ends; a slice
    /// cannot change its length, so no handle is gained or lost.
    pub fn as_mut_slice(&mut self) -> (s: &mut [B])
        ensures
            s@ == old(self)@,
            final(self)@ == final(s)@,
    {
        self.bodies.as_mut_slice()
    }
}

/// Reading a body back by the handle `add` returned gives the body that was
/// added, and every handle issued before stays valid and keeps naming the
/// same body.
pub proof fn lemma_add_then_get<B>(before: Seq<B>, after: Seq<B>, body: B, id: BodyId)
    requires
        id.slot() == before.len(),
        after == before.push(body),
    ensures
        id.slot() < after.len(),
        after[id.slot() as int] == body,
        forall|other: BodyId|
            other.slot() < before.len() ==> other.slot() < after.len() && after[other.slot() as int]
                == before[other.slot() as int],
{
}

/// Handles returned by two successive `add` calls are different.
pub proof fn lemma_handles_are_distinct(first: BodyId, second: BodyId, len_before: nat)
    requires
        first.slot() == len_before,
        second.slot() == len_before + 1,
    ensures
        first != second,
{
}

} // verus!
