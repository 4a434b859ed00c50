//! The impulses that survive from one step to the next.
//!
//! Warm starting — feeding a contact the impulse it needed last step — is what
//! lets a settled stack start each step almost solved. The persistent unit is
//! the pair, and a point of the pair is matched across steps by the features
//! that produced it, so a box that tips onto another corner starts that corner
//! cold instead of inheriting the force that held the old one.
//!
//! The cache is generic in what it stores: the solver keeps a normal and a
//! tangent impulse per point, and the cache's rules do not depend on them.

use vstd::prelude::*;

use crate::entity::{lemma_place_order, Entity, EntityPair};
use crate::sorted::{has_key, insert, lemma_to_map, lemma_to_map_len, position, sorted_keys, to_map, Keyed};

verus! {

/// The pair and the manifold point a cached impulse belongs to.
///
/// The pair is ordered as the broad phase emits it, so it has one key rather
/// than two; `id` names the pair of features the point came from.
#[derive(Debug, Clone, Copy, PartialEq, Eq, Hash, Structural)]
pub struct ContactKey {
    pub a: Entity,
    pub b: Entity,
    pub id: u16,
}

impl Keyed for ContactKey {
    open spec fn rank(&self) -> int {
        (EntityPair { a: self.a, b: self.b }).rank() * 0x1_0000 + self.id as int
    }

    fn precedes(&self, other: &Self) -> (before: bool) {
        let mine = EntityPair { a: self.a, b: self.b };
        let theirs = EntityPair { a: other.a, b: other.b };
        if mine.same_key(&theirs) {
            self.id < other.id
        } else {
            let before = mine.precedes(&theirs);
            proof {
                EntityPair::lemma_rank_injective(mine, theirs);
                lemma_place_order(mine.rank(), theirs.rank(), self.id as int, other.id as int, 0x1_0000);
            }
            before
        }
    }

    fn same_key(&self, other: &Self) -> (same: bool) {
        self.a == other.a && self.b == other.b && self.id == other.id
    }

    proof fn lemma_rank_injective(a: Self, b: Self) {
        let pa = EntityPair { a: a.a, b: a.b };
        let pb = EntityPair { a: b.a, b: b.b };
        if a.rank() == b.rank() {
            assert(pa.rank() == pb.rank());
            EntityPair::lemma_rank_injective(pa, pb);
        }
    }
}

/// The cache as the contracts read it: what this step reads, and what it has
/// recorded for the next.
pub struct CacheModel<V> {
    pub current: Map<ContactKey, V>,
    pub next: Map<ContactKey, V>,
}

/// Contact impulses, kept for exactly as long as their pair keeps touching.
///
/// Two maps rather than one: `current` is what this step reads, `next` is
/// what it writes, and [`ImpulseCache::commit`] swaps them. A pair that
/// separated, a body that was despawned and a scene that was reloaded all
/// disappear by the same rule, because none of them recorded anything.
#[derive(Debug)]
pub struct ImpulseCache<V> {
    current: Vec<(ContactKey, V)>,
    next: Vec<(ContactKey, V)>,
}

impl<V> View for ImpulseCache<V> {
    type V = CacheModel<V>;

    closed spec fn view(&self) -> CacheModel<V> {
        CacheModel { current: to_map(self.current@), next: to_map(self.next@) }
    }
}

impl<V: Copy> Default for ImpulseCache<V> {
    /// An empty cache.
    fn default() -> (cache: ImpulseCache<V>)
        ensures
            cache@.current.dom().is_empty(),
            cache@.next.dom().is_empty(),
    {
        ImpulseCache::new()
    }
}

impl<V> ImpulseCache<V> {
    /// Both maps hold each key once, in key order.
    #[verifier::type_invariant]
    spec fn keys_in_order(self) -> bool {
        sorted_keys(self.current@) && sorted_keys(self.next@)
    }
}

impl<V: Copy> ImpulseCache<V> {
    /// An empty cache.
    pub fn new() -> (cache: ImpulseCache<V>)
        ensures
            cache@.current.dom().is_empty(),
            cache@.next.dom().is_empty(),
    {
        let cache = ImpulseCache { current: Vec::new(), next: Vec::new() };
        proof {
            assert(to_map(cache.current@) =~= Map::empty());
            assert(to_map(cache.next@) =~= Map::empty());
        }
        cache
    }

    /// What this pair accumulated last step, or `None` for a new contact,
    /// which starts from zero.
    pub fn warm_start(&self, key: ContactKey) -> (impulse: Option<V>)
        ensures
            impulse == (if self@.current.dom().contains(key) {
                Some(self@.current[key])
            } else {
                None
            }),
    {
        proof {
            use_type_invariant(self);
            lemma_to_map(self.current@);
        }
        let p = position(&self.current, key);
        if p < self.current.len() && self.current[p].0.same_key(&key) {
            Some(self.current[p].1)
        } else {
            proof {
                if has_key(self.current@, key) {
                    let i = choose|i: int| 0 <= i < self.current@.len() && self.current@[i].0 == key;
                    if p < self.current@.len() {
                        ContactKey::lemma_rank_injective(self.current@[p as int].0, key);
                    }
                    if i > p {
                        assert(self.current@[p as int].0.rank() < self.current@[i].0.rank());
                    }
                }
            }
            None
        }
    }

    /// Remembers what this pair accumulated, for the next step to start from.
    pub fn record(&mut self, key: ContactKey, impulse: V)
        ensures
            final(self)@.current == old(self)@.current,
            final(self)@.next == old(self)@.next.insert(key, impulse),
    {
        proof {
            use_type_invariant(&*self);
        }
        let mut next: Vec<(ContactKey, V)> = Vec::new();
        std::mem::swap(&mut next, &mut self.next);
        insert(&mut next, key, impulse);
        self.next = next;
    }

    /// Ends the step: what was recorded becomes what is read, and everything
    /// not recorded is gone.
    pub fn commit(&mut self)
        ensures
            final(self)@.current == old(self)@.next,
            final(self)@.next.dom().is_empty(),
    {
        proof {
            use_type_invariant(&*self);
        }
        let mut next: Vec<(ContactKey, V)> = Vec::new();
        std::mem::swap(&mut next, &mut self.next);
        self.current = next;
        proof {
            assert(to_map(self.next@) =~= Map::empty());
        }
    }

    /// How many pairs are currently warm.
    pub fn len(&self) -> (n: usize)
        ensures
            n == self@.current.dom().len(),
    {
        proof {
            use_type_invariant(self);
            lemma_to_map_len(self.current@);
        }
        self.current.len()
    }

    /// Whether no pair is warm.
    pub fn is_empty(&self) -> (empty: bool)
        ensures
            empty == self@.current.dom().is_empty(),
    {
        proof {
            use_type_invariant(self);
            lemma_to_map(self.current@);
            if self.current@.len() > 0 {
                assert(self@.current.dom().contains(self.current@[0].0));
            }
        }
        self.current.len() == 0
    }

    /// Forgets everything, for a world that is no longer the same world.
    pub fn clear(&mut self)
        ensures
            final(self)@.current.dom().is_empty(),
            final(self)@.next.dom().is_empty(),
    {
        proof {
            use_type_invariant(&*self);
        }
        self.current = Vec::new();
        self.next = Vec::new();
        proof {
            assert(to_map(self.current@) =~= Map::empty());
            assert(to_map(self.next@) =~= Map::empty());
        }
    }
}

/// A step does not read what it is still writing, and once it commits the
/// next step reads exactly what was recorded, the last record of a key
/// winning.
pub proof fn lemma_recorded_is_read_after_commit<V>(
    start: CacheModel<V>,
    recorded: CacheModel<V>,
    committed: CacheModel<V>,
    key: ContactKey,
    impulse: V,
)
    requires
        recorded.current == start.current,
        recorded.next == start.next.insert(key, impulse),
        committed.current == recorded.next,
    ensures
        recorded.current.dom().contains(key) == start.current.dom().contains(key),
        committed.current.dom().contains(key),
        committed.current[key] == impulse,
{
}

/// A pair that stops touching is forgotten: after a step in which nothing
/// was recorded, the next step reads nothing at all.
pub proof fn lemma_unrecorded_pairs_are_forgotten<V>(
    first: CacheModel<V>,
    second: CacheModel<V>,
    key: ContactKey,
)
    requires
        first.next.dom().is_empty(),
        second.current == first.next,
    ensures
        !second.current.dom().contains(key),
{
}

} // verus!
