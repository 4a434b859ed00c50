//! What began and ended touching, from one step to the next.
//!
//! There is no `Stayed`: a resting pair is what the contacts already are, and
//! emitting one per resting pair per step would mean a stack of crates
//! generating events forever for standing still.

use vstd::prelude::*;

use crate::entity::{entity_rank, Entity, EntityPair};
use crate::sorted::{contains_key, has_key, insert, lemma_to_map, sorted_keys, to_map, Keyed};

verus! {

/// Whether a pair started touching or stopped.
#[derive(Debug, Clone, Copy, PartialEq, Eq, Structural)]
pub enum Touch {
    Began,
    Ended,
}

/// A pair that started or stopped overlapping during a step.
///
/// `a` is always the lower entity, so a game can compare against one field or
/// the other without worrying which side of the pair it is on.
#[derive(Debug, Clone, Copy, PartialEq, Eq, Structural)]
pub struct CollisionEvent {
    pub a: Entity,
    pub b: Entity,
    pub touch: Touch,
    /// Whether either side of the pair is a sensor, and so was detected
    /// rather than solved.
    pub sensor: bool,
}

impl CollisionEvent {
    /// The other half of the pair, if `entity` is in it at all.
    pub fn other(&self, entity: Entity) -> (other: Option<Entity>)
        ensures
            self.a == entity ==> other == Some(self.b),
            self.a != entity && self.b == entity ==> other == Some(self.a),
            self.a != entity && self.b != entity ==> other is None,
    {
        if self.a == entity {
            Some(self.b)
        } else if self.b == entity {
            Some(self.a)
        } else {
            None
        }
    }
}

/// The pair of `a` and `b`, lower entity first.
pub open spec fn ordered(a: Entity, b: Entity) -> EntityPair {
    if entity_rank(a) <= entity_rank(b) {
        EntityPair { a, b }
    } else {
        EntityPair { a: b, b: a }
    }
}

/// The pair of `a` and `b`, lower entity first.
pub fn ordered_pair(a: Entity, b: Entity) -> (pair: EntityPair)
    ensures
        pair == ordered(a, b),
{
    if a.at_or_before(&b) {
        EntityPair { a, b }
    } else {
        EntityPair { a: b, b: a }
    }
}

/// The pairs `overlapping` reports, each normalised to lower entity first,
/// with the sensor flag of its last report.
pub open spec fn overlap_map(overlapping: Seq<(Entity, Entity, bool)>) -> Map<EntityPair, bool>
    decreases overlapping.len(),
{
    if overlapping.len() == 0 {
        Map::empty()
    } else {
        let last = overlapping.last();
        overlap_map(overlapping.drop_last()).insert(ordered(last.0, last.1), last.2)
    }
}

/// The event a touching pair, with its sensor flag, makes when it `touch`es.
pub open spec fn event_for(entry: (EntityPair, bool), touch: Touch) -> CollisionEvent {
    CollisionEvent { a: entry.0.a, b: entry.0.b, touch, sensor: entry.1 }
}

/// A `Began` for each pair of `now` missing from `before`, in pair order.
pub open spec fn began(
    now: Seq<(EntityPair, bool)>,
    before: Seq<(EntityPair, bool)>,
) -> Seq<CollisionEvent>
    decreases now.len(),
{
    if now.len() == 0 {
        Seq::empty()
    } else {
        let rest = began(now.drop_last(), before);
        let (pair, sensor) = now.last();
        if has_key(before, pair) {
            rest
        } else {
            rest.push(CollisionEvent { a: pair.a, b: pair.b, touch: Touch::Began, sensor })
        }
    }
}

/// An `Ended` for each pair of `before` missing from `now`, in pair order,
/// carrying the sensor flag the pair had while it touched.
pub open spec fn ended(
    before: Seq<(EntityPair, bool)>,
    now: Seq<(EntityPair, bool)>,
) -> Seq<CollisionEvent>
    decreases before.len(),
{
    if before.len() == 0 {
        Seq::empty()
    } else {
        let rest = ended(before.drop_last(), now);
        let (pair, sensor) = before.last();
        if has_key(now, pair) {
            rest
        } else {
            rest.push(CollisionEvent { a: pair.a, b: pair.b, touch: Touch::Ended, sensor })
        }
    }
}

/// What an update that leaves `now` touching, where `before` was, reports:
/// every `Began`, then every `Ended`.
pub open spec fn reported(
    now: Seq<(EntityPair, bool)>,
    before: Seq<(EntityPair, bool)>,
) -> Seq<CollisionEvent> {
    began(now, before) + ended(before, now)
}

/// The pairs that were overlapping when the last step ended, in pair order.
///
/// Kept so the next step can diff against it: what is new began, what is
/// missing ended. A despawned entity needs no special case — it stops being
/// reported, so its pairs go missing and end like any other.
#[derive(Debug)]
pub struct Touching {
    pairs: Vec<(EntityPair, bool)>,
}

impl View for Touching {
    type V = Seq<(EntityPair, bool)>;

    closed spec fn view(&self) -> Seq<(EntityPair, bool)> {
        self.pairs@
    }
}

impl Default for Touching {
    /// Nothing touching.
    fn default() -> (touching: Touching)
        ensures
            touching@.len() == 0,
    {
        Touching::new()
    }
}

/// Whether each pair of `pairs` names its lower entity first.
pub open spec fn lower_first(pairs: Seq<(EntityPair, bool)>) -> bool {
    forall|i: int|
        0 <= i < pairs.len() ==> entity_rank(#[trigger] pairs[i].0.a) <= entity_rank(pairs[i].0.b)
}

impl Touching {
    /// The touching pairs are in pair order, each once, each lower entity
    /// first.
    #[verifier::type_invariant]
    spec fn pairs_in_order(self) -> bool {
        sorted_keys(self.pairs@) && lower_first(self.pairs@)
    }

    /// Nothing touching.
    pub fn new() -> (touching: Touching)
        ensures
            touching@.len() == 0,
    {
        Touching { pairs: Vec::new() }
    }

    /// Replaces what is touching with `overlapping` and reports the change.
    ///
    /// Each item is a pair and whether it is a sensor pair. Order within a
    /// pair does not matter; it is normalised here, so a narrow phase that
    /// swapped the two sides cannot report the same overlap ending and
    /// beginning again on alternate steps.
    ///
    /// Every `Began` comes before every `Ended`, each group in pair order.
    pub fn update(&mut self, overlapping: &[(Entity, Entity, bool)]) -> (events: Vec<
        CollisionEvent,
    >)
        ensures
            sorted_keys(final(self)@),
            lower_first(final(self)@),
            to_map(final(self)@) == overlap_map(overlapping@),
            events@ == reported(final(self)@, old(self)@),
            forall|i: int|
                0 <= i < events@.len() ==> entity_rank(#[trigger] events@[i].a) <= entity_rank(
                    events@[i].b,
                ),
    {
        proof {
            use_type_invariant(&*self);
        }
        let mut now: Vec<(EntityPair, bool)> = Vec::new();
        let mut i: usize = 0;
        proof {
            assert(overlapping@.take(0) =~= Seq::<(Entity, Entity, bool)>::empty());
            assert(to_map(now@) =~= Map::<EntityPair, bool>::empty());
        }
        while i < overlapping.len()
            invariant
                0 <= i <= overlapping@.len(),
                sorted_keys(now@),
                lower_first(now@),
                to_map(now@) == overlap_map(overlapping@.take(i as int)),
            decreases overlapping@.len() - i,
        {
            let (a, b, sensor) = overlapping[i];
            let ghost previous = now@;
            let pair = ordered_pair(a, b);
            insert(&mut now, pair, sensor);
            proof {
                lemma_pair_either_way_round(a, b);
                lemma_insert_keeps_lower_first(previous, now@, pair, sensor);
                assert(overlapping@.take(i + 1).drop_last() =~= overlapping@.take(i as int));
            }
            i = i + 1;
        }
        proof {
            assert(overlapping@.take(overlapping@.len() as int) =~= overlapping@);
        }

        let mut events: Vec<CollisionEvent> = Vec::new();
        let mut j: usize = 0;
        proof {
            assert(now@.take(0) =~= Seq::<(EntityPair, bool)>::empty());
        }
        while j < now.len()
            invariant
                0 <= j <= now@.len(),
                sorted_keys(now@),
                lower_first(now@),
                sorted_keys(self.pairs@),
                lower_first(self.pairs@),
                *self == *old(self),
                events@ == began(now@.take(j as int), self.pairs@),
            decreases now@.len() - j,
        {
            let (pair, sensor) = now[j];
            proof {
                assert(now@.take(j + 1).drop_last() =~= now@.take(j as int));
                assert(now@.take(j + 1).last() == now@[j as int]);
            }
            if !contains_key(&self.pairs, pair) {
                events.push(CollisionEvent { a: pair.a, b: pair.b, touch: Touch::Began, sensor });
            }
            j = j + 1;
        }
        proof {
            assert(now@.take(now@.len() as int) =~= now@);
        }

        let ghost opened = events@;
        let mut k: usize = 0;
        proof {
            assert(self.pairs@.take(0) =~= Seq::<(EntityPair, bool)>::empty());
            assert(events@ =~= opened + ended(self.pairs@.take(0), now@));
        }
        while k < self.pairs.len()
            invariant
                0 <= k <= self.pairs@.len(),
                sorted_keys(now@),
                lower_first(now@),
                sorted_keys(self.pairs@),
                lower_first(self.pairs@),
                *self == *old(self),
                events@ == opened + ended(self.pairs@.take(k as int), now@),
            decreases self.pairs@.len() - k,
        {
            let (pair, sensor) = self.pairs[k];
            proof {
                assert(self.pairs@.take(k + 1).drop_last() =~= self.pairs@.take(k as int));
                assert(self.pairs@.take(k + 1).last() == self.pairs@[k as int]);
            }
            if !contains_key(&now, pair) {
                events.push(CollisionEvent { a: pair.a, b: pair.b, touch: Touch::Ended, sensor });
            }
            proof {
                assert(events@ =~= opened + ended(self.pairs@.take(k + 1), now@));
            }
            k = k + 1;
        }
        proof {
            assert(self.pairs@.take(self.pairs@.len() as int) =~= self.pairs@);
            lemma_events_name_the_lower_entity_first(now@, self.pairs@);
        }
        self.pairs = now;
        events
    }

    /// Whether these two are touching as of the last step, either way round.
    pub fn contains(&self, a: Entity, b: Entity) -> (touching: bool)
        ensures
            touching == to_map(self@).dom().contains(ordered(a, b)),
    {
        proof {
            use_type_invariant(self);
        }
        let found = contains_key(&self.pairs, ordered_pair(a, b));
        proof {
            lemma_to_map(self.pairs@);
        }
        found
    }

    /// How many pairs are touching.
    pub fn len(&self) -> (n: usize)
        ensures
            n == self@.len(),
    {
        self.pairs.len()
    }

    /// Whether no pair is touching.
    pub fn is_empty(&self) -> (empty: bool)
        ensures
            empty == (self@.len() == 0),
    {
        self.pairs.len() == 0
    }

    /// Forgets everything, silently.
    ///
    /// For a world that is no longer the same world — a scene load, or the
    /// editor's Stop. Diffing the next step against the old scene's pairs would
    /// open the session with an `Ended` for every contact of a scene that is
    /// no longer loaded.
    pub fn clear(&mut self)
        ensures
            final(self)@.len() == 0,
    {
        self.pairs = Vec::new();
    }
}

/// A pair is the same pair whichever way round it is reported.
pub proof fn lemma_pair_either_way_round(a: Entity, b: Entity)
    ensures
        ordered(a, b) == ordered(b, a),
        entity_rank(ordered(a, b).a) <= entity_rank(ordered(a, b).b),
{
    if entity_rank(a) == entity_rank(b) {
        crate::entity::lemma_entity_rank_injective(a, b);
    }
}

/// The pairs touching after an update are exactly the pairs it was handed,
/// either way round.
pub proof fn lemma_overlap_map_holds_what_was_reported(
    overlapping: Seq<(Entity, Entity, bool)>,
    a: Entity,
    b: Entity,
)
    ensures
        overlap_map(overlapping).dom().contains(ordered(a, b)) <==> exists|i: int|
            0 <= i < overlapping.len() && ordered(overlapping[i].0, overlapping[i].1) == ordered(
                a,
                b,
            ),
    decreases overlapping.len(),
{
    if overlapping.len() > 0 {
        let rest = overlapping.drop_last();
        lemma_overlap_map_holds_what_was_reported(rest, a, b);
        if exists|i: int|
            0 <= i < overlapping.len() && ordered(overlapping[i].0, overlapping[i].1) == ordered(
                a,
                b,
            ) {
            let i = choose|i: int|
                0 <= i < overlapping.len() && ordered(overlapping[i].0, overlapping[i].1)
                    == ordered(a, b);
            if i < overlapping.len() - 1 {
                assert(rest[i] == overlapping[i]);
            }
        }
        if overlap_map(rest).dom().contains(ordered(a, b)) {
            let i = choose|i: int|
                0 <= i < rest.len() && ordered(rest[i].0, rest[i].1) == ordered(a, b);
            assert(overlapping[i] == rest[i]);
        }
    }
}

/// Each `Began` is for a pair now touching that was not before, and every
/// such pair has one.
pub proof fn lemma_began_is_what_is_new(
    now: Seq<(EntityPair, bool)>,
    before: Seq<(EntityPair, bool)>,
)
    requires
        sorted_keys(now),
    ensures
        forall|i: int|
            0 <= i < began(now, before).len() ==> {
                let event = #[trigger] began(now, before)[i];
                &&& event.touch == Touch::Began
                &&& has_key(now, EntityPair { a: event.a, b: event.b })
                &&& !has_key(before, EntityPair { a: event.a, b: event.b })
            },
        forall|j: int|
            0 <= j < now.len() && !has_key(before, #[trigger] now[j].0) ==> exists|i: int|
                0 <= i < began(now, before).len() && began(now, before)[i] == event_for(now[j], Touch::Began),
    decreases now.len(),
{
    if now.len() > 0 {
        let rest = now.drop_last();
        assert(sorted_keys(rest));
        lemma_began_is_what_is_new(rest, before);
        let events = began(now, before);
        assert forall|i: int| 0 <= i < events.len() implies {
            let event = #[trigger] events[i];
            &&& event.touch == Touch::Began
            &&& has_key(now, EntityPair { a: event.a, b: event.b })
            &&& !has_key(before, EntityPair { a: event.a, b: event.b })
        } by {
            if i < began(rest, before).len() {
                assert(events[i] == began(rest, before)[i]);
                let pair = EntityPair { a: events[i].a, b: events[i].b };
                let k = choose|k: int| 0 <= k < rest.len() && rest[k].0 == pair;
                assert(now[k].0 == pair);
            } else {
                assert(now[now.len() - 1].0 == now.last().0);
            }
        }
        assert forall|j: int| 0 <= j < now.len() && !has_key(before, #[trigger] now[j].0) implies exists|
            i: int,
        |
            0 <= i < events.len() && events[i] == event_for(now[j], Touch::Began) by {
            if j < now.len() - 1 {
                assert(rest[j] == now[j]);
                let i = choose|i: int|
                    0 <= i < began(rest, before).len() && began(rest, before)[i] == event_for(rest[j], Touch::Began);
                assert(events[i] == began(rest, before)[i]);
            } else {
                assert(events[events.len() - 1] == event_for(now[j], Touch::Began));
            }
        }
    }
}

/// Each `Ended` is for a pair that touched before and no longer does, with
/// the sensor flag it had, and every such pair has one.
pub proof fn lemma_ended_is_what_is_gone(
    before: Seq<(EntityPair, bool)>,
    now: Seq<(EntityPair, bool)>,
)
    requires
        sorted_keys(before),
    ensures
        forall|i: int|
            0 <= i < ended(before, now).len() ==> {
                let event = #[trigger] ended(before, now)[i];
                &&& event.touch == Touch::Ended
                &&& has_key(before, EntityPair { a: event.a, b: event.b })
                &&& !has_key(now, EntityPair { a: event.a, b: event.b })
            },
        forall|j: int|
            0 <= j < before.len() && !has_key(now, #[trigger] before[j].0) ==> exists|i: int|
                0 <= i < ended(before, now).len() && ended(before, now)[i] == event_for(before[j], Touch::Ended),
    decreases before.len(),
{
    if before.len() > 0 {
        let rest = before.drop_last();
        assert(sorted_keys(rest));
        lemma_ended_is_what_is_gone(rest, now);
        let events = ended(before, now);
        assert forall|i: int| 0 <= i < events.len() implies {
            let event = #[trigger] events[i];
            &&& event.touch == Touch::Ended
            &&& has_key(before, EntityPair { a: event.a, b: event.b })
            &&& !has_key(now, EntityPair { a: event.a, b: event.b })
        } by {
            if i < ended(rest, now).len() {
                assert(events[i] == ended(rest, now)[i]);
                let pair = EntityPair { a: events[i].a, b: events[i].b };
                let k = choose|k: int| 0 <= k < rest.len() && rest[k].0 == pair;
                assert(before[k].0 == pair);
            } else {
                assert(before[before.len() - 1].0 == before.last().0);
            }
        }
        assert forall|j: int| 0 <= j < before.len() && !has_key(now, #[trigger] before[j].0) implies exists|
            i: int,
        |
            0 <= i < events.len() && events[i] == event_for(before[j], Touch::Ended) by {
            if j < before.len() - 1 {
                assert(rest[j] == before[j]);
                let i = choose|i: int|
                    0 <= i < ended(rest, now).len() && ended(rest, now)[i] == event_for(rest[j], Touch::Ended);
                assert(events[i] == ended(rest, now)[i]);
            } else {
                assert(events[events.len() - 1] == event_for(before[j], Touch::Ended));
            }
        }
    }
}

/// Every `Began` an update reports comes before every `Ended`.
pub proof fn lemma_began_comes_before_ended(
    now: Seq<(EntityPair, bool)>,
    before: Seq<(EntityPair, bool)>,
)
    requires
        sorted_keys(now),
        sorted_keys(before),
    ensures
        forall|i: int, j: int|
            #![trigger reported(now, before)[i], reported(now, before)[j]]
            0 <= i < j < reported(now, before).len() && reported(now, before)[i].touch
                == Touch::Ended ==> reported(now, before)[j].touch == Touch::Ended,
{
    lemma_began_is_what_is_new(now, before);
    lemma_ended_is_what_is_gone(before, now);
    let first = began(now, before);
    let second = ended(before, now);
    assert(reported(now, before) == first + second);
    assert forall|i: int, j: int|
        #![trigger reported(now, before)[i], reported(now, before)[j]]
        0 <= i < j < reported(now, before).len() && reported(now, before)[i].touch
            == Touch::Ended implies reported(now, before)[j].touch == Touch::Ended by {
        if i < first.len() {
            assert((first + second)[i] == first[i]);
        }
        assert((first + second)[j] == second[j - first.len()]);
    }
}

/// A pair that keeps touching says nothing more: an update that hands back
/// exactly the pairs already touching reports no event at all.
pub proof fn lemma_same_pairs_report_nothing(
    now: Seq<(EntityPair, bool)>,
    before: Seq<(EntityPair, bool)>,
)
    requires
        sorted_keys(now),
        sorted_keys(before),
        forall|pair: EntityPair| has_key(now, pair) <==> has_key(before, pair),
    ensures
        began(now, before).len() == 0,
        ended(before, now).len() == 0,
{
    lemma_began_is_what_is_new(now, before);
    lemma_ended_is_what_is_gone(before, now);
    if began(now, before).len() > 0 {
        let event = began(now, before)[0];
        assert(has_key(now, EntityPair { a: event.a, b: event.b }));
    }
    if ended(before, now).len() > 0 {
        let event = ended(before, now)[0];
        assert(has_key(before, EntityPair { a: event.a, b: event.b }));
    }
}

/// Clearing ends nothing: the cleared pairs are gone rather than ended, so
/// the update after a clear reports no `Ended`, and a `Began` for each pair
/// then overlapping.
pub proof fn lemma_cleared_pairs_never_end(now: Seq<(EntityPair, bool)>)
    ensures
        began(now, Seq::empty()).len() == now.len(),
        ended(Seq::<(EntityPair, bool)>::empty(), now).len() == 0,
    decreases now.len(),
{
    if now.len() > 0 {
        lemma_cleared_pairs_never_end(now.drop_last());
    }
}


/// Putting a lower-first pair into a map whose pairs are all lower first
/// keeps them so.
proof fn lemma_insert_keeps_lower_first(
    before: Seq<(EntityPair, bool)>,
    after: Seq<(EntityPair, bool)>,
    pair: EntityPair,
    sensor: bool,
)
    requires
        sorted_keys(before),
        sorted_keys(after),
        lower_first(before),
        entity_rank(pair.a) <= entity_rank(pair.b),
        to_map(after) == to_map(before).insert(pair, sensor),
    ensures
        lower_first(after),
{
    lemma_to_map(before);
    lemma_to_map(after);
    assert forall|i: int| 0 <= i < after.len() implies entity_rank(#[trigger] after[i].0.a)
        <= entity_rank(after[i].0.b) by {
        let key = after[i].0;
        assert(has_key(after, key));
        assert(to_map(after).dom().contains(key));
        if key != pair {
            assert(to_map(before).dom().contains(key));
            let j = choose|j: int| 0 <= j < before.len() && before[j].0 == key;
            assert(entity_rank(before[j].0.a) <= entity_rank(before[j].0.b));
        }
    }
}

/// Every event an update reports names its lower entity first, when both the
/// pairs now touching and those touching before do.
pub proof fn lemma_events_name_the_lower_entity_first(
    now: Seq<(EntityPair, bool)>,
    before: Seq<(EntityPair, bool)>,
)
    requires
        sorted_keys(now),
        sorted_keys(before),
        lower_first(now),
        lower_first(before),
    ensures
        forall|i: int|
            0 <= i < reported(now, before).len() ==> entity_rank(#[trigger] reported(now, before)[i].a)
                <= entity_rank(reported(now, before)[i].b),
{
    lemma_began_is_what_is_new(now, before);
    lemma_ended_is_what_is_gone(before, now);
    let first = began(now, before);
    let second = ended(before, now);
    assert forall|i: int| 0 <= i < reported(now, before).len() implies entity_rank(
        #[trigger] reported(now, before)[i].a,
    ) <= entity_rank(reported(now, before)[i].b) by {
        if i < first.len() {
            assert(reported(now, before)[i] == first[i]);
            let pair = EntityPair { a: first[i].a, b: first[i].b };
            assert(has_key(now, pair));
            let j = choose|j: int| 0 <= j < now.len() && now[j].0 == pair;
            assert(entity_rank(now[j].0.a) <= entity_rank(now[j].0.b));
        } else {
            let k = i - first.len();
            assert(reported(now, before)[i] == second[k]);
            let pair = EntityPair { a: second[k].a, b: second[k].b };
            assert(has_key(before, pair));
            let j = choose|j: int| 0 <= j < before.len() && before[j].0 == pair;
            assert(entity_rank(before[j].0.a) <= entity_rank(before[j].0.b));
        }
    }
}

} // verus!
