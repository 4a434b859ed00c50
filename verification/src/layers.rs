//! What a collider touches: two bitmasks, and the symmetric rule over them.
//!
//! A pair interacts only when each side is on a layer the other looks at, so
//! there is no way for one of them to detect the other and be walked through
//! in return. A collider with no layers is on every layer and looks at every
//! layer.

use vstd::prelude::*;

use crate::entity::Entity;

verus! {

/// The layers a collider is on, and the layers it looks at.
#[derive(Debug, Clone, Copy, PartialEq, Eq, Structural)]
pub struct CollisionLayers {
    /// The layers this collider is on.
    pub layers: u32,
    /// The layers this collider looks at.
    pub mask: u32,
}

/// Whether `a` and `b` may interact: each is on a layer the other looks at.
pub open spec fn interacts(a: CollisionLayers, b: CollisionLayers) -> bool {
    (a.layers & b.mask) != 0 && (b.layers & a.mask) != 0
}

/// The layers of a collider that may carry none: absent means every layer.
pub open spec fn layers_or_all(layers: Option<CollisionLayers>) -> CollisionLayers {
    match layers {
        Some(layers) => layers,
        None => CollisionLayers { layers: u32::MAX, mask: u32::MAX },
    }
}

impl Default for CollisionLayers {
    /// On every layer, looking at every layer.
    fn default() -> (layers: CollisionLayers)
        ensures
            layers.layers == u32::MAX,
            layers.mask == u32::MAX,
    {
        CollisionLayers { layers: CollisionLayers::ALL, mask: CollisionLayers::ALL }
    }
}

impl CollisionLayers {
    /// Every layer.
    pub const ALL: u32 = 0xffff_ffff;

    /// How many layers there are.
    pub const COUNT: u32 = 32;

    /// The mask of layer `index` alone.
    pub fn bit(index: u32) -> (bit: u32)
        requires
            index < 32,
        ensures
            bit == 1u32 << index,
    {
        1u32 << index
    }

    /// On layer `index` alone, looking at every layer.
    pub fn on(index: u32) -> (layers: CollisionLayers)
        requires
            index < 32,
        ensures
            layers.layers == 1u32 << index,
            layers.mask == u32::MAX,
    {
        CollisionLayers { layers: CollisionLayers::bit(index), mask: CollisionLayers::ALL }
    }

    /// The same layers, looking only at layer `index`.
    pub fn looking_at(self, index: u32) -> (layers: CollisionLayers)
        requires
            index < 32,
        ensures
            layers.layers == self.layers,
            layers.mask == 1u32 << index,
    {
        CollisionLayers { layers: self.layers, mask: CollisionLayers::bit(index) }
    }

    /// Whether `mask` holds layer `index`.
    pub fn holds(mask: u32, index: u32) -> (held: bool)
        requires
            index < 32,
        ensures
            held == ((mask & (1u32 << index)) != 0),
    {
        mask & CollisionLayers::bit(index) != 0
    }

    /// `mask` with layer `index` switched: on if it was off, off if it was on.
    pub fn flipped(mask: u32, index: u32) -> (flipped: u32)
        requires
            index < 32,
        ensures
            flipped == mask ^ (1u32 << index),
    {
        mask ^ CollisionLayers::bit(index)
    }

    /// Whether two colliders, either of which may carry no layers, interact.
    pub fn interact(a: Option<&CollisionLayers>, b: Option<&CollisionLayers>) -> (interact: bool)
        ensures
            interact == interacts(
                layers_or_all(
                    match a {
                        Some(layers) => Some(*layers),
                        None => None,
                    },
                ),
                layers_or_all(
                    match b {
                        Some(layers) => Some(*layers),
                        None => None,
                    },
                ),
            ),
    {
        let a = match a {
            Some(layers) => *layers,
            None => CollisionLayers::default(),
        };
        let b = match b {
            Some(layers) => *layers,
            None => CollisionLayers::default(),
        };
        (a.layers & b.mask) != 0 && (b.layers & a.mask) != 0
    }
}

/// The rule is symmetric: whether `a` interacts with `b` never depends on
/// which of them is asked about first.
pub proof fn lemma_interaction_is_symmetric(a: CollisionLayers, b: CollisionLayers)
    ensures
        interacts(a, b) == interacts(b, a),
{
    let (al, am, bl, bm) = (a.layers, a.mask, b.layers, b.mask);
    assert((al & bm) == (bm & al)) by (bit_vector);
    assert((bl & am) == (am & bl)) by (bit_vector);
}

/// Flipping one layer's toggle switches that layer and leaves every other
/// layer as it was.
pub proof fn lemma_flipping_touches_one_layer(mask: u32, index: u32, other: u32)
    requires
        index < 32,
        other < 32,
    ensures
        ((mask ^ (1u32 << index)) & (1u32 << index) != 0) == ((mask & (1u32 << index)) == 0),
        other != index ==> (((mask ^ (1u32 << index)) & (1u32 << other) != 0) == ((mask & (1u32
            << other)) != 0)),
{
    assert(((mask ^ (1u32 << index)) & (1u32 << index) != 0) == ((mask & (1u32 << index)) == 0))
        by (bit_vector)
        requires
            index < 32,
    ;
    assert(other != index ==> (((mask ^ (1u32 << index)) & (1u32 << other) != 0) == ((mask & (1u32
        << other)) != 0))) by (bit_vector)
        requires
            index < 32,
            other < 32,
    ;
}

/// A collider with no layers interacts with every collider that is on some
/// layer and looks at some layer.
pub proof fn lemma_unfiltered_interacts_with_any_live_filter(b: CollisionLayers)
    requires
        b.layers != 0,
        b.mask != 0,
    ensures
        interacts(layers_or_all(None), b),
{
    let all = u32::MAX;
    let (bl, bm) = (b.layers, b.mask);
    assert((all & bm) == bm) by (bit_vector)
        requires
            all == 0xffff_ffffu32,
    ;
    assert((bl & all) == bl) by (bit_vector)
        requires
            all == 0xffff_ffffu32,
    ;
}

/// Which pairs of colliders the layers let interact: every `(i, j)` with
/// `i < j` whose layers interact, in increasing order, each once, never
/// mirrored, and never a collider with itself. `layers[i]` is what collider
/// `i` carries, `None` for no filter.
///
/// The layer test comes before the bounds test because it is the cheaper of
/// the two: a pair that can never interact is not a candidate, and is never
/// handed to the bounds test at all.
pub fn interacting_pairs(layers: &[Option<CollisionLayers>]) -> (pairs: Vec<(usize, usize)>)
    ensures
        forall|k: int|
            0 <= k < pairs@.len() ==> {
                let (i, j) = #[trigger] pairs@[k];
                &&& i < j < layers@.len()
                &&& interacts(layers_or_all(layers@[i as int]), layers_or_all(layers@[j as int]))
            },
        forall|k: int, l: int|
            0 <= k < l < pairs@.len() ==> pair_before(#[trigger] pairs@[k], #[trigger] pairs@[l]),
        forall|i: int, j: int|
            0 <= i < j < layers@.len() && interacts(
                layers_or_all(layers@[i]),
                layers_or_all(layers@[j]),
            ) ==> #[trigger] pairs@.contains((i as usize, j as usize)),
{
    let mut pairs: Vec<(usize, usize)> = Vec::new();
    let mut i: usize = 0;
    while i < layers.len()
        invariant
            0 <= i <= layers@.len(),
            forall|k: int|
                0 <= k < pairs@.len() ==> {
                    let (x, y) = #[trigger] pairs@[k];
                    &&& x < y < layers@.len()
                    &&& x < i
                    &&& interacts(
                        layers_or_all(layers@[x as int]),
                        layers_or_all(layers@[y as int]),
                    )
                },
            forall|k: int, l: int|
                0 <= k < l < pairs@.len() ==> pair_before(#[trigger] pairs@[k], #[trigger] pairs@[l]),
            forall|x: int, y: int|
                0 <= x < i && x < y < layers@.len() && interacts(
                    layers_or_all(layers@[x]),
                    layers_or_all(layers@[y]),
                ) ==> #[trigger] pairs@.contains((x as usize, y as usize)),
        decreases layers@.len() - i,
    {
        let mut j: usize = i + 1;
        while j < layers.len()
            invariant
                0 <= i < layers@.len(),
                i + 1 <= j <= layers@.len(),
                forall|k: int|
                    0 <= k < pairs@.len() ==> {
                        let (x, y) = #[trigger] pairs@[k];
                        &&& x < y < layers@.len()
                        &&& (x < i || (x == i && y < j))
                        &&& interacts(
                            layers_or_all(layers@[x as int]),
                            layers_or_all(layers@[y as int]),
                        )
                    },
                forall|k: int, l: int|
                    0 <= k < l < pairs@.len() ==> pair_before(
                        #[trigger] pairs@[k],
                        #[trigger] pairs@[l],
                    ),
                forall|x: int, y: int|
                    ((0 <= x < i && x < y < layers@.len()) || (x == i && i < y < j)) && interacts(
                        layers_or_all(layers@[x]),
                        layers_or_all(layers@[y]),
                    ) ==> #[trigger] pairs@.contains((x as usize, y as usize)),
            decreases layers@.len() - j,
        {
            let a = match &layers[i] {
                Some(l) => Some(l),
                None => None,
            };
            let b = match &layers[j] {
                Some(l) => Some(l),
                None => None,
            };
            if CollisionLayers::interact(a, b) {
                let ghost previous = pairs@;
                pairs.push((i, j));
                proof {
                    assert(pairs@[previous.len() as int] == (i, j));
                    assert forall|x: int, y: int|
                        ((0 <= x < i && x < y < layers@.len()) || (x == i && i < y < j + 1))
                            && interacts(
                            layers_or_all(layers@[x]),
                            layers_or_all(layers@[y]),
                        ) implies #[trigger] pairs@.contains((x as usize, y as usize)) by {
                        if x == i && y == j {
                            assert(pairs@[previous.len() as int] == (x as usize, y as usize));
                        } else {
                            assert(previous.contains((x as usize, y as usize)));
                            let k = choose|k: int|
                                0 <= k < previous.len() && previous[k] == (x as usize, y as usize);
                            assert(pairs@[k] == previous[k]);
                        }
                    }
                }
            }
            j = j + 1;
        }
        i = i + 1;
    }
    pairs
}

/// Whether the pair `p` comes before `q`: by first index, then by second.
pub open spec fn pair_before(p: (usize, usize), q: (usize, usize)) -> bool {
    p.0 < q.0 || (p.0 == q.0 && p.1 < q.1)
}

/// Which colliders a query is allowed to find.
///
/// One mask, not the pair a collider carries: a query has no layers of its own
/// to be looked at, and only the caller's side of the test exists.
#[derive(Debug, Clone, Copy, PartialEq, Eq, Structural)]
pub struct QueryFilter {
    /// Layers this query looks at. A collider is a candidate when it is on
    /// any of them.
    pub mask: u32,
    /// An entity the query ignores — the caster, almost always.
    pub exclude: Option<Entity>,
    /// Whether sensors are found. Off by default: a shot should not stop at a
    /// trigger volume, and a ground check should not stand on one.
    pub sensors: bool,
}

/// Whether `filter` lets a query find `entity`, which is a sensor when
/// `sensor` holds and carries `layers`.
pub open spec fn allowed(
    filter: QueryFilter,
    entity: Entity,
    sensor: bool,
    layers: Option<CollisionLayers>,
) -> bool {
    &&& filter.exclude != Some(entity)
    &&& (filter.sensors || !sensor)
    &&& (filter.mask & layers_or_all(layers).layers) != 0
}

impl Default for QueryFilter {
    /// Every layer, nothing excluded, sensors skipped.
    fn default() -> (filter: QueryFilter)
        ensures
            filter.mask == u32::MAX,
            filter.exclude is None,
            !filter.sensors,
    {
        QueryFilter { mask: CollisionLayers::ALL, exclude: None, sensors: false }
    }
}

impl QueryFilter {
    /// Looks at everything solid.
    pub fn new() -> (filter: QueryFilter)
        ensures
            filter.mask == u32::MAX,
            filter.exclude is None,
            !filter.sensors,
    {
        QueryFilter::default()
    }

    /// Looks only at the layers in `mask`.
    pub fn looking_at(self, mask: u32) -> (filter: QueryFilter)
        ensures
            filter == (QueryFilter { mask, ..self }),
    {
        QueryFilter { mask, ..self }
    }

    /// Ignores `entity`.
    pub fn excluding(self, entity: Entity) -> (filter: QueryFilter)
        ensures
            filter == (QueryFilter { exclude: Some(entity), ..self }),
    {
        QueryFilter { exclude: Some(entity), ..self }
    }

    /// Finds sensors as well as solid colliders.
    pub fn with_sensors(self) -> (filter: QueryFilter)
        ensures
            filter == (QueryFilter { sensors: true, ..self }),
    {
        QueryFilter { sensors: true, ..self }
    }

    /// Whether this query may find `entity`, a sensor when `sensor` holds,
    /// carrying `layers` (`None` for none).
    pub fn allows(&self, entity: Entity, sensor: bool, layers: Option<CollisionLayers>) -> (allowed_: bool)
        ensures
            allowed_ == allowed(*self, entity, sensor, layers),
            !sensor || self.sensors ==> (allowed_ <==> (self.exclude != Some(entity) && (self.mask
                & layers_or_all(layers).layers) != 0)),
            sensor && !self.sensors ==> !allowed_,
    {
        if self.exclude == Some(entity) {
            return false;
        }
        if !self.sensors && sensor {
            return false;
        }
        let layers = match layers {
            Some(layers) => layers,
            None => CollisionLayers::default(),
        };
        self.mask & layers.layers != 0
    }
}

/// The sensors flag only widens a query: a solid collider is found or not
/// whatever the flag says, a query with it on finds a sensor exactly where it
/// would find a solid collider, and a query with it off walks past every
/// sensor.
pub proof fn lemma_sensors_only_widen_a_query(
    filter: QueryFilter,
    entity: Entity,
    layers: Option<CollisionLayers>,
)
    ensures
        allowed(filter, entity, false, layers) == allowed(
            QueryFilter { sensors: true, ..filter },
            entity,
            false,
            layers,
        ),
        allowed(QueryFilter { sensors: true, ..filter }, entity, true, layers) == allowed(
            filter,
            entity,
            false,
            layers,
        ),
        !allowed(QueryFilter { sensors: false, ..filter }, entity, true, layers),
        allowed(filter, entity, true, layers) ==> allowed(filter, entity, false, layers),
{
}

} // verus!
