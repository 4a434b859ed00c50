//! What one step found overlapping, as the pairs the touching set is diffed
//! against.

use vstd::prelude::*;

use crate::entity::Entity;

verus! {

/// A pair with whether it is a sensor pair.
pub open spec fn flagged(pair: (Entity, Entity), sensor: bool) -> (Entity, Entity, bool) {
    (pair.0, pair.1, sensor)
}

/// Every overlapping pair and whether it is a sensor pair: the solid pairs
/// the solver resolved, in the order found, then the sensor pairs, which are
/// detected and never solved.
///
/// A pair is a sensor pair when either side is a sensor: a trigger volume
/// must not push the player out, and a player must not be stopped by it.
pub fn overlap_pairs(contacts: &[(Entity, Entity)], sensors: &[(Entity, Entity)]) -> (pairs: Vec<
    (Entity, Entity, bool),
>)
    ensures
        pairs@.len() == contacts@.len() + sensors@.len(),
        forall|i: int|
            0 <= i < contacts@.len() ==> #[trigger] pairs@[i] == flagged(contacts@[i], false),
        forall|i: int|
            0 <= i < sensors@.len() ==> #[trigger] pairs@[contacts@.len() + i] == flagged(
                sensors@[i],
                true,
            ),
{
    let mut pairs: Vec<(Entity, Entity, bool)> = Vec::new();
    let mut i: usize = 0;
    while i < contacts.len()
        invariant
            0 <= i <= contacts@.len(),
            pairs@.len() == i,
            forall|k: int| 0 <= k < i ==> #[trigger] pairs@[k] == flagged(contacts@[k], false),
        decreases contacts@.len() - i,
    {
        let (a, b) = contacts[i];
        pairs.push((a, b, false));
        i = i + 1;
    }
    let mut j: usize = 0;
    while j < sensors.len()
        invariant
            0 <= j <= sensors@.len(),
            pairs@.len() == contacts@.len() + j,
            forall|k: int|
                0 <= k < contacts@.len() ==> #[trigger] pairs@[k] == flagged(contacts@[k], false),
            forall|k: int|
                0 <= k < j ==> #[trigger] pairs@[contacts@.len() + k] == flagged(sensors@[k], true),
        decreases sensors@.len() - j,
    {
        let (a, b) = sensors[j];
        pairs.push((a, b, true));
        proof {
            assert(pairs@[contacts@.len() + j] == flagged(sensors@[j as int], true));
        }
        j = j + 1;
    }
    pairs
}

} // verus!
