//! Which entities the solver works on, and where each one sits.
//!
//! Every rigid body gets a slot, in the order the world yields them; then
//! every collider that has no body gets one too, as an immovable body, because
//! a wall with no `RigidBody` must still stop what hits it. What a slot holds
//! — masses, velocities, inertia — is floating point and is filled by the
//! caller; this is the layout the contacts are resolved against.

use vstd::prelude::*;

use crate::entity::Entity;

verus! {

/// The slots the solver gives to `colliders` that have no body, each once, in
/// order: a collider already holding a slot, from `taken` or from earlier in
/// `colliders`, gets no second one.
pub open spec fn immovable_slots(taken: Seq<Entity>, colliders: Seq<Entity>) -> Seq<Entity>
    decreases colliders.len(),
{
    if colliders.len() == 0 {
        Seq::empty()
    } else {
        let rest = immovable_slots(taken, colliders.drop_last());
        let last = colliders.last();
        if taken.contains(last) || rest.contains(last) {
            rest
        } else {
            rest.push(last)
        }
    }
}

/// The solver's slots for a world whose bodies are `bodies` and whose
/// colliders are `colliders`: each body, movable, then each collider without a
/// body, immovable.
pub open spec fn slots_spec(bodies: Seq<Entity>, colliders: Seq<Entity>) -> Seq<(Entity, bool)> {
    bodies.map_values(|e: Entity| (e, true)) + immovable_slots(bodies, colliders).map_values(
        |e: Entity| (e, false),
    )
}

/// Whether `slots` holds a slot for `entity`.
fn holds_slot(slots: &Vec<(Entity, bool)>, entity: Entity) -> (found: bool)
    ensures
        found == exists|i: int| 0 <= i < slots@.len() && slots@[i].0 == entity,
{
    let mut i: usize = 0;
    while i < slots.len()
        invariant
            0 <= i <= slots@.len(),
            forall|k: int| 0 <= k < i ==> slots@[k].0 != entity,
        decreases slots@.len() - i,
    {
        if slots[i].0 == entity {
            return true;
        }
        i = i + 1;
    }
    false
}

/// Lays out the solver's slots: every body, movable, in the order given,
/// then every collider that has no body, immovable, each once.
pub fn gather_slots(bodies: &[Entity], colliders: &[Entity]) -> (slots: Vec<(Entity, bool)>)
    ensures
        slots@ == slots_spec(bodies@, colliders@),
{
    let mut slots: Vec<(Entity, bool)> = Vec::new();
    let mut i: usize = 0;
    while i < bodies.len()
        invariant
            0 <= i <= bodies@.len(),
            slots@ == bodies@.take(i as int).map_values(|e: Entity| (e, true)),
        decreases bodies@.len() - i,
    {
        slots.push((bodies[i], true));
        proof {
            assert(bodies@.take(i + 1) =~= bodies@.take(i as int).push(bodies@[i as int]));
            assert(slots@ =~= bodies@.take(i + 1).map_values(|e: Entity| (e, true)));
        }
        i = i + 1;
    }
    proof {
        assert(bodies@.take(bodies@.len() as int) =~= bodies@);
    }
    let ghost movable = slots@;
    let mut j: usize = 0;
    proof {
        assert(colliders@.take(0) =~= Seq::<Entity>::empty());
        assert(slots@ =~= movable + immovable_slots(bodies@, colliders@.take(0)).map_values(
            |e: Entity| (e, false),
        ));
    }
    while j < colliders.len()
        invariant
            0 <= j <= colliders@.len(),
            movable == bodies@.map_values(|e: Entity| (e, true)),
            slots@ == movable + immovable_slots(bodies@, colliders@.take(j as int)).map_values(
                |e: Entity| (e, false),
            ),
        decreases colliders@.len() - j,
    {
        let entity = colliders[j];
        let ghost before = immovable_slots(bodies@, colliders@.take(j as int));
        proof {
            assert(colliders@.take(j + 1).drop_last() =~= colliders@.take(j as int));
            assert(colliders@.take(j + 1).last() == entity);
        }
        let found = holds_slot(&slots, entity);
        proof {
            let now = slots@;
            if bodies@.contains(entity) {
                let k = choose|k: int| 0 <= k < bodies@.len() && bodies@[k] == entity;
                assert(now[k] == movable[k]);
            }
            if before.contains(entity) {
                let k = choose|k: int| 0 <= k < before.len() && before[k] == entity;
                assert(now[movable.len() + k].0 == entity);
            }
            if found {
                let k = choose|k: int| 0 <= k < now.len() && now[k].0 == entity;
                if k < movable.len() {
                    assert(bodies@[k] == entity);
                } else {
                    assert(before[k - movable.len()] == entity);
                }
            }
        }
        if !found {
            slots.push((entity, false));
            proof {
                assert(slots@ =~= movable + before.push(entity).map_values(|e: Entity| (e, false)));
            }
        }
        j = j + 1;
    }
    proof {
        assert(colliders@.take(colliders@.len() as int) =~= colliders@);
    }
    slots
}

/// Where `entity` sits among `slots`, if it has a slot.
pub fn slot_of(slots: &[(Entity, bool)], entity: Entity) -> (index: Option<usize>)
    ensures
        match index {
            Some(i) => i < slots@.len() && slots@[i as int].0 == entity && forall|k: int|
                0 <= k < i ==> slots@[k].0 != entity,
            None => forall|k: int| 0 <= k < slots@.len() ==> slots@[k].0 != entity,
        },
{
    let mut i: usize = 0;
    while i < slots.len()
        invariant
            0 <= i <= slots@.len(),
            forall|k: int| 0 <= k < i ==> slots@[k].0 != entity,
        decreases slots@.len() - i,
    {
        if slots[i].0 == entity {
            return Some(i);
        }
        i = i + 1;
    }
    None
}

/// A body with a collider is gathered once, as a body; a collider without a
/// body is gathered once, as immovable; and nothing else is gathered.
pub proof fn lemma_each_entity_gathered_once(
    bodies: Seq<Entity>,
    colliders: Seq<Entity>,
    entity: Entity,
)
    requires
        bodies.no_duplicates(),
    ensures
        bodies.contains(entity) ==> exists|i: int|
            0 <= i < slots_spec(bodies, colliders).len() && slots_spec(bodies, colliders)[i] == (
            entity,
            true,
        ),
        !bodies.contains(entity) && colliders.contains(entity) ==> exists|i: int|
            0 <= i < slots_spec(bodies, colliders).len() && slots_spec(bodies, colliders)[i] == (
            entity,
            false,
        ),
        !bodies.contains(entity) && !colliders.contains(entity) ==> forall|i: int|
            0 <= i < slots_spec(bodies, colliders).len() ==> slots_spec(bodies, colliders)[i].0
                != entity,
        forall|i: int, j: int|
            0 <= i < j < slots_spec(bodies, colliders).len() ==> slots_spec(bodies, colliders)[i].0
                != slots_spec(bodies, colliders)[j].0,
{
    let movable = bodies.map_values(|e: Entity| (e, true));
    let rest = immovable_slots(bodies, colliders);
    let fixed = rest.map_values(|e: Entity| (e, false));
    let all = slots_spec(bodies, colliders);
    lemma_immovable_slots(bodies, colliders);
    assert(all == movable + fixed);
    if bodies.contains(entity) {
        let k = choose|k: int| 0 <= k < bodies.len() && bodies[k] == entity;
        assert(all[k] == (entity, true));
    }
    if !bodies.contains(entity) && colliders.contains(entity) {
        assert(rest.contains(entity));
        let k = choose|k: int| 0 <= k < rest.len() && rest[k] == entity;
        assert(all[movable.len() + k] == (entity, false));
    }
    assert forall|i: int| 0 <= i < all.len() && all[i].0 == entity implies bodies.contains(entity)
        || colliders.contains(entity) by {
        if i < movable.len() {
            assert(all[i].0 == bodies[i]);
            assert(bodies.contains(bodies[i]));
        } else {
            assert(all[i].0 == rest[i - movable.len()]);
            assert(rest.contains(rest[i - movable.len()]));
        }
    }
    assert forall|i: int, j: int| 0 <= i < j < all.len() implies all[i].0 != all[j].0 by {
        if j < movable.len() {
            assert(all[i].0 == bodies[i] && all[j].0 == bodies[j]);
        } else if i < movable.len() {
            assert(all[i].0 == bodies[i]);
            assert(all[j].0 == rest[j - movable.len()]);
            assert(rest.contains(rest[j - movable.len()]));
            assert(bodies.contains(bodies[i]));
        } else {
            assert(all[i].0 == rest[i - movable.len()]);
            assert(all[j].0 == rest[j - movable.len()]);
        }
    }
}

/// The immovable slots are the colliders without a body, each once.
proof fn lemma_immovable_slots(taken: Seq<Entity>, colliders: Seq<Entity>)
    ensures
        forall|e: Entity|
            #[trigger] immovable_slots(taken, colliders).contains(e) <==> (colliders.contains(e)
                && !taken.contains(e)),
        immovable_slots(taken, colliders).no_duplicates(),
    decreases colliders.len(),
{
    if colliders.len() > 0 {
        let first = colliders.drop_last();
        let last = colliders.last();
        lemma_immovable_slots(taken, first);
        let rest = immovable_slots(taken, first);
        assert forall|e: Entity| #[trigger]
            immovable_slots(taken, colliders).contains(e) <==> (colliders.contains(e)
                && !taken.contains(e)) by {
            if first.contains(e) {
                let k = choose|k: int| 0 <= k < first.len() && first[k] == e;
                assert(colliders[k] == e);
            }
            if colliders.contains(e) && e != last {
                let k = choose|k: int| 0 <= k < colliders.len() && colliders[k] == e;
                assert(k < colliders.len() - 1);
                assert(first[k] == e);
            }
            assert(colliders[colliders.len() - 1] == last);
            if !taken.contains(last) && !rest.contains(last) {
                assert(rest.push(last)[rest.len() as int] == last);
                if rest.push(last).contains(e) && e != last {
                    let k = choose|k: int| 0 <= k < rest.len() + 1 && rest.push(last)[k] == e;
                    assert(rest[k] == e);
                }
                if rest.contains(e) {
                    let k = choose|k: int| 0 <= k < rest.len() && rest[k] == e;
                    assert(rest.push(last)[k] == e);
                }
            }
        }
    }
}

} // verus!
