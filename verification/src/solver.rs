//! Warm-starting state of the sequential-impulse solver.
//!
//! At the end of every fixed step each contact's accumulated impulses are
//! remembered under `(body_a, body_b, feature)`. On the next step a contact
//! with the same key starts from those impulses instead of from zero; a
//! contact with no match starts at zero, and a contact that has ended is
//! forgotten because the whole cache is replaced every step. The impulses
//! themselves (floating point) are carried as an opaque value `V`.
use vstd::prelude::*;
use crate::body::BodyId;

verus! {

/// Identifies one physical contact from one step to the next: the two bodies
/// (by handle slot) and the geometric feature that produced the point.
#[derive(Clone, Copy, Debug, PartialEq, Eq, Structural)]
pub struct ContactKey {
    pub body_a: u32,
    pub body_b: u32,
    pub feature: u32,
}

impl ContactKey {
    /// The key of a contact between `a` and `b` produced by `feature`.
    pub fn new(a: BodyId, b: BodyId, feature: u32) -> (k: ContactKey)
        ensures
            k.body_a == a.slot(),
            k.body_b == b.slot(),
            k.feature == feature,
    {
        ContactKey { body_a: a.raw(), body_b: b.raw(), feature }
    }
}

/// What `entries` remember for `key`: the value of the first entry with that
/// key, or `None` if no entry has it.
pub open spec fn first_match<V>(entries: Seq<(ContactKey, V)>, key: ContactKey) -> Option<V>
    decreases entries.len(),
{
    if entries.len() == 0 {
        None
    } else if entries[0].0 == key {
        Some(entries[0].1)
    } else {
        first_match(entries.drop_first(), key)
    }
}

/// Accumulated impulses from the previous step, as an ordered list of
/// `(key, impulses)` scanned front to back: no hashing, so lookups are
/// deterministic.
pub struct ImpulseCache<V> {
    entries: Vec<(ContactKey, V)>,
}

impl<V> View for ImpulseCache<V> {
    type V = Seq<(ContactKey, V)>;

    closed spec fn view(&self) -> Seq<(ContactKey, V)> {
        self.entries@
    }
}

impl<V: Copy> ImpulseCache<V> {
    /// An empty cache: nothing to seed from.
    pub fn new() -> (c: Self)
        ensures
            c@ == Seq::<(ContactKey, V)>::empty(),
    {
        ImpulseCache { entries: Vec::new() }
    }

    /// Number of remembered contacts.
    pub fn len(&self) -> (n: usize)
        ensures
            n == self@.len(),
    {
        self.entries.len()
    }

    /// The impulses remembered for `key`; the first matching entry wins.
    pub fn find(&self, key: ContactKey) -> (r: Option<V>)
        ensures
            r == first_match(self@, key),
    {
        let mut i: usize = 0;
        assert(self@.skip(0) == self@);
        while i < self.entries.len()
            invariant
                0 <= i <= self@.len(),
                first_match(self@, key) == first_match(self@.skip(i as int), key),
            decreases self@.len() - i,
        {
            assert(self@.skip(i as int).drop_first() == self@.skip(i + 1));
            if self.entries[i].0 == key {
                return Some(self.entries[i].1);
            }
            i += 1;
        }
        None
    }

    /// For each contact key, in order, the impulses to seed it with.
    pub fn seeds(&self, keys: &Vec<ContactKey>) -> (r: Vec<Option<V>>)
        ensures
            r@.len() == keys@.len(),
            forall|k: int| 0 <= k < keys@.len() ==> #[trigger] r@[k] == first_match(self@, keys@[k]),
    {
        let mut r: Vec<Option<V>> = Vec::new();
        for k in 0..keys.len()
            invariant
                r@.len() == k,
                forall|q: int| 0 <= q < k ==> #[trigger] r@[q] == first_match(self@, keys@[q]),
        {
            r.push(self.find(keys[k]));
        }
        r
    }

    /// Replaces everything remembered with `entries`, the contacts of the
    /// step just solved, in contact order. Nothing of the old contents stays.
    pub fn replace(&mut self, entries: Vec<(ContactKey, V)>)
        ensures
            final(self)@ == entries@,
    {
        self.entries = entries;
    }
}

/// The first entry with a key decides what is remembered for it: if entry
/// `i` has `key` and no earlier entry has, its value is found.
pub proof fn lemma_first_entry_wins<V>(entries: Seq<(ContactKey, V)>, key: ContactKey, i: int)
    requires
        0 <= i < entries.len(),
        entries[i].0 == key,
        forall|j: int| 0 <= j < i ==> (#[trigger] entries[j]).0 != key,
    ensures
        first_match(entries, key) == Some(entries[i].1),
    decreases i,
{
    if i > 0 {
        let rest = entries.drop_first();
        assert forall|j: int| 0 <= j < i - 1 implies (#[trigger] rest[j]).0 != key by {
            assert(rest[j] == entries[j + 1]);
        }
        lemma_first_entry_wins(rest, key, i - 1);
    }
}

/// A key that no entry has is not remembered: after the cache is replaced
/// by a step's contacts, a contact that has ended leaves nothing behind, and
/// a new contact starts with nothing to seed from.
pub proof fn lemma_absent_key_is_forgotten<V>(entries: Seq<(ContactKey, V)>, key: ContactKey)
    requires
        forall|j: int| 0 <= j < entries.len() ==> (#[trigger] entries[j]).0 != key,
    ensures
        first_match(entries, key) is None,
    decreases entries.len(),
{
    if entries.len() > 0 {
        let rest = entries.drop_first();
        assert forall|j: int| 0 <= j < rest.len() implies (#[trigger] rest[j]).0 != key by {
            assert(rest[j] == entries[j + 1]);
        }
        lemma_absent_key_is_forgotten(rest, key);
    }
}

/// Something is remembered for a key only if some entry has that key, and
/// what is remembered is that entry's value.
pub proof fn lemma_found_value_comes_from_an_entry<V>(
    entries: Seq<(ContactKey, V)>,
    key: ContactKey,
)
    requires
        first_match(entries, key) is Some,
    ensures
        exists|i: int|
            0 <= i < entries.len() && (#[trigger] entries[i]).0 == key && Some(entries[i].1)
                == first_match(entries, key),
    decreases entries.len(),
{
    if entries[0].0 != key {
        let rest = entries.drop_first();
        lemma_found_value_comes_from_an_entry(rest, key);
        let i = choose|i: int|
            0 <= i < rest.len() && (#[trigger] rest[i]).0 == key && Some(rest[i].1)
                == first_match(rest, key);
        assert(entries[i + 1] == rest[i]);
    } else {
        assert(entries[0].0 == key);
    }
}

} // verus!
