use voltra::cache::{ContactKey, ImpulseCache};
use voltra::entity::{Entity, EntityPair};
use voltra::events::{ordered_pair, CollisionEvent, Touch, Touching};

/// What one contact accumulated over a step.
#[derive(Debug, Clone, Copy, PartialEq, Default)]
struct CachedImpulse {
    normal: f32,
    tangent: f32,
}

fn two() -> (Entity, Entity) {
    (Entity::new(0, 0), Entity::new(1, 0))
}

fn key(a: Entity, b: Entity, id: u16) -> ContactKey {
    ContactKey { a, b, id }
}

/// The impulse a contact starts a step from: what it had, or zeroes.
fn warm(cache: &ImpulseCache<CachedImpulse>, key: ContactKey) -> CachedImpulse {
    cache.warm_start(key).unwrap_or_default()
}

#[test]
fn a_new_pair_began() {
    let (a, b) = two();
    let mut touching = Touching::new();

    let events = touching.update(&[(a, b, false)]);

    assert_eq!(events, vec![CollisionEvent { a, b, touch: Touch::Began, sensor: false }]);
    assert!(touching.contains(b, a), "either way round");
}

#[test]
fn a_pair_that_keeps_touching_says_nothing_more() {
    let (a, b) = two();
    let mut touching = Touching::new();
    touching.update(&[(a, b, false)]);

    assert!(touching.update(&[(a, b, false)]).is_empty());
    assert!(touching.update(&[(a, b, false)]).is_empty());
    assert_eq!(touching.len(), 1);
}

#[test]
fn a_pair_that_stops_overlapping_ended() {
    let (a, b) = two();
    let mut touching = Touching::new();
    touching.update(&[(a, b, true)]);

    let events = touching.update(&[]);

    assert_eq!(
        events,
        vec![CollisionEvent { a, b, touch: Touch::Ended, sensor: true }],
        "and it is still remembered as a sensor pair"
    );
    assert!(touching.is_empty());
}

#[test]
fn a_pair_reported_the_other_way_round_is_the_same_pair() {
    let (a, b) = two();
    let mut touching = Touching::new();
    touching.update(&[(a, b, false)]);

    assert!(touching.update(&[(b, a, false)]).is_empty());
}

#[test]
fn what_began_comes_before_what_ended() {
    let (a, b, c) = (Entity::new(0, 0), Entity::new(1, 0), Entity::new(2, 0));
    let mut touching = Touching::new();
    touching.update(&[(a, b, false)]);

    let events = touching.update(&[(b, c, false)]);

    assert_eq!(events.len(), 2);
    assert_eq!(events[0].touch, Touch::Began);
    assert_eq!(events[1].touch, Touch::Ended);
}

#[test]
fn clearing_ends_nothing() {
    let (a, b) = two();
    let mut touching = Touching::new();
    touching.update(&[(a, b, false)]);

    touching.clear();

    assert!(touching.update(&[]).is_empty(), "the pairs are gone, not ended");
}

#[test]
fn an_event_names_the_other_side() {
    let (a, b) = two();
    let event = CollisionEvent { a, b, touch: Touch::Began, sensor: true };

    assert_eq!(event.other(a), Some(b));
    assert_eq!(event.other(b), Some(a));
    assert_eq!(event.other(Entity::new(7, 0)), None);
}

#[test]
fn an_event_names_the_lower_entity_first() {
    let (a, b) = two();
    let mut touching = Touching::default();

    let events = touching.update(&[(b, a, true)]);

    assert_eq!(events, vec![CollisionEvent { a, b, touch: Touch::Began, sensor: true }]);
}

#[test]
fn the_events_of_a_step_come_in_pair_order() {
    let e: Vec<Entity> = (0..4).map(|i| Entity::new(i, 0)).collect();
    let mut touching = Touching::new();
    touching.update(&[(e[2], e[3], false), (e[0], e[1], false)]);

    let events = touching.update(&[(e[1], e[3], false), (e[0], e[2], false)]);

    let pairs: Vec<(Entity, Entity, Touch)> = events.iter().map(|ev| (ev.a, ev.b, ev.touch)).collect();
    assert_eq!(
        pairs,
        vec![
            (e[0], e[2], Touch::Began),
            (e[1], e[3], Touch::Began),
            (e[0], e[1], Touch::Ended),
            (e[2], e[3], Touch::Ended),
        ]
    );
    assert_eq!(touching.len(), 2);
}

#[test]
fn a_reused_slot_is_another_entity() {
    let old = Entity::new(0, 0);
    let reborn = Entity::new(0, 1);
    let other = Entity::new(1, 0);
    let mut touching = Touching::new();
    touching.update(&[(old, other, false)]);

    let events = touching.update(&[(reborn, other, false)]);

    assert_eq!(events.len(), 2);
    assert_eq!((events[0].a, events[0].touch), (reborn, Touch::Began));
    assert_eq!((events[1].a, events[1].touch), (old, Touch::Ended));
}

#[test]
fn a_pair_is_ordered_by_slot_then_generation() {
    let low = Entity::new(1, 9);
    let high = Entity::new(2, 0);
    assert_eq!(ordered_pair(high, low), EntityPair { a: low, b: high });
    assert_eq!(ordered_pair(low, high), EntityPair { a: low, b: high });
    assert!(Entity::new(3, 1).at_or_before(&Entity::new(3, 2)));
    assert!(!Entity::new(3, 2).at_or_before(&Entity::new(3, 1)));
}

#[test]
fn an_unknown_pair_starts_from_zero() {
    let (a, b) = two();

    assert_eq!(warm(&ImpulseCache::default(), key(a, b, 0)), CachedImpulse::default());
}

#[test]
fn a_recorded_pair_is_returned_once_the_step_is_committed() {
    let (a, b) = two();
    let mut cache = ImpulseCache::default();
    let impulse = CachedImpulse { normal: 3.0, tangent: -1.0 };

    cache.record(key(a, b, 0), impulse);
    assert_eq!(
        warm(&cache, key(a, b, 0)),
        CachedImpulse::default(),
        "a step must not read what it is still writing"
    );

    cache.commit();
    assert_eq!(warm(&cache, key(a, b, 0)), impulse);
}

#[test]
fn a_pair_that_stops_touching_is_forgotten() {
    let (a, b) = two();
    let mut cache = ImpulseCache::default();

    cache.record(key(a, b, 0), CachedImpulse { normal: 3.0, tangent: 0.0 });
    cache.commit();
    cache.commit(); // a step in which nothing was recorded

    assert!(cache.is_empty());
    assert_eq!(warm(&cache, key(a, b, 0)), CachedImpulse::default());
}

#[test]
fn a_pair_that_keeps_touching_is_kept() {
    let (a, b) = two();
    let mut cache = ImpulseCache::default();

    for step in 1..=10 {
        cache.record(key(a, b, 0), CachedImpulse { normal: step as f32, tangent: 0.0 });
        cache.commit();
    }

    assert_eq!(cache.len(), 1);
    assert_eq!(warm(&cache, key(a, b, 0)).normal, 10.0);
}

#[test]
fn clearing_forgets_both_the_committed_and_the_pending() {
    let (a, b) = two();
    let mut cache = ImpulseCache::default();
    cache.record(key(a, b, 0), CachedImpulse { normal: 1.0, tangent: 0.0 });
    cache.commit();
    cache.record(key(a, b, 0), CachedImpulse { normal: 2.0, tangent: 0.0 });

    cache.clear();
    cache.commit();

    assert!(cache.is_empty());
}

#[test]
fn each_point_of_a_pair_keeps_its_own_impulse() {
    let (a, b) = two();
    let mut cache: ImpulseCache<CachedImpulse> = ImpulseCache::new();
    cache.record(key(a, b, 7), CachedImpulse { normal: 1.0, tangent: 0.0 });
    cache.record(key(a, b, 3), CachedImpulse { normal: 2.0, tangent: 0.0 });
    cache.record(key(a, b, 7), CachedImpulse { normal: 5.0, tangent: 0.5 });
    cache.commit();

    assert_eq!(cache.len(), 2);
    assert_eq!(warm(&cache, key(a, b, 7)), CachedImpulse { normal: 5.0, tangent: 0.5 });
    assert_eq!(warm(&cache, key(a, b, 3)).normal, 2.0);
    assert_eq!(cache.warm_start(key(a, b, 4)), None, "another corner starts cold");
}
