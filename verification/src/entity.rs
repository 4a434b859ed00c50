//! The handle an entity is addressed by in the world.

use vstd::prelude::*;

use crate::sorted::Keyed;

verus! {

/// An entity: a slot in the world and the generation of that slot.
///
/// The generation makes a handle to a despawned entity stale rather than an
/// alias of whatever reuses the slot. Entities are ordered by slot, then by
/// generation.
#[derive(Debug, Clone, Copy, PartialEq, Eq, Hash, Structural)]
pub struct Entity {
    pub index: u32,
    pub generation: u32,
}

/// An entity's place in the entity order: by slot, then by generation.
pub open spec fn entity_rank(e: Entity) -> int {
    e.index as int * 0x1_0000_0000 + e.generation as int
}

impl Entity {
    /// The entity in slot `index` at `generation`.
    pub fn new(index: u32, generation: u32) -> (e: Entity)
        ensures
            e.index == index,
            e.generation == generation,
    {
        Entity { index, generation }
    }

    /// Whether `self` comes no later than `other` in the entity order.
    pub fn at_or_before(&self, other: &Entity) -> (before: bool)
        ensures
            before == (entity_rank(*self) <= entity_rank(*other)),
    {
        let before = self.index < other.index || (self.index == other.index
            && self.generation <= other.generation);
        proof {
            if self.index != other.index {
                lemma_place_order(
                    self.index as int,
                    other.index as int,
                    self.generation as int,
                    other.generation as int,
                    0x1_0000_0000,
                );
            }
        }
        before
    }
}

/// In a two-place number, the higher place decides the order whenever it
/// differs.
pub proof fn lemma_place_order(x: int, y: int, i: int, j: int, base: int)
    requires
        x != y,
        0 <= i < base,
        0 <= j < base,
    ensures
        (x * base + i < y * base + j) == (x < y),
        (x * base + i <= y * base + j) == (x < y),
{
    if x < y {
        assert(x * base + base <= y * base) by (nonlinear_arith)
            requires
                x < y,
                base > 0,
        ;
    } else {
        assert(y * base + base <= x * base) by (nonlinear_arith)
            requires
                y < x,
                base > 0,
        ;
    }
}

/// An entity's rank fits below 2^64.
pub proof fn lemma_entity_rank_bounded(e: Entity)
    ensures
        0 <= entity_rank(e) < 0x1_0000_0000_0000_0000,
{
}

/// Two entities of the same rank are the same entity.
pub proof fn lemma_entity_rank_injective(a: Entity, b: Entity)
    ensures
        entity_rank(a) == entity_rank(b) ==> a == b,
{
}

/// Two entities taken together, in a fixed order.
#[derive(Debug, Clone, Copy, PartialEq, Eq, Hash, Structural)]
pub struct EntityPair {
    pub a: Entity,
    pub b: Entity,
}

impl Keyed for EntityPair {
    open spec fn rank(&self) -> int {
        entity_rank(self.a) * 0x1_0000_0000_0000_0000 + entity_rank(self.b)
    }

    fn precedes(&self, other: &Self) -> (before: bool) {
        if self.a == other.a {
            !other.b.at_or_before(&self.b)
        } else {
            let before = self.a.at_or_before(&other.a);
            proof {
                lemma_entity_rank_injective(self.a, other.a);
                lemma_entity_rank_bounded(self.b);
                lemma_entity_rank_bounded(other.b);
                lemma_place_order(
                    entity_rank(self.a),
                    entity_rank(other.a),
                    entity_rank(self.b),
                    entity_rank(other.b),
                    0x1_0000_0000_0000_0000,
                );
            }
            before
        }
    }

    fn same_key(&self, other: &Self) -> (same: bool) {
        self.a == other.a && self.b == other.b
    }

    proof fn lemma_rank_injective(a: Self, b: Self) {
        if a.rank() == b.rank() {
            assert(entity_rank(a.a) == entity_rank(b.a));
            assert(entity_rank(a.b) == entity_rank(b.b));
        }
    }
}

} // verus!
