use voltra::entity::Entity;
use voltra::hierarchy::{label, orphans};
use voltra::layers::{interacting_pairs, CollisionLayers, QueryFilter};
use voltra::narrow::{make_id, point_ids};
use voltra::solver::{gather_slots, slot_of};
use voltra::spawn::name_of;
use voltra::step::overlap_pairs;

/// The layers of each collider, in world order; `None` is a collider that
/// carries no layers.
fn colliders(count: usize) -> Vec<Option<CollisionLayers>> {
    vec![None; count]
}

#[test]
fn two_unfiltered_colliders_are_a_pair() {
    assert_eq!(interacting_pairs(&colliders(2)), vec![(0, 1)]);
}

#[test]
fn a_pair_appears_once_and_never_mirrored() {
    let pairs = interacting_pairs(&colliders(2));
    assert_eq!(pairs.len(), 1);
    assert!(!pairs.contains(&(1, 0)));
}

#[test]
fn a_pair_the_layers_separate_is_not_a_candidate() {
    let mut layers = colliders(2);
    layers[0] = Some(CollisionLayers::on(0).looking_at(0));
    layers[1] = Some(CollisionLayers::on(1).looking_at(1));

    assert!(interacting_pairs(&layers).is_empty(), "neither looks at the other");
}

#[test]
fn one_side_looking_away_separates_the_pair() {
    let mut layers = colliders(2);
    layers[0] = Some(CollisionLayers::on(0));
    layers[1] = Some(CollisionLayers::on(1).looking_at(1));

    assert!(interacting_pairs(&layers).is_empty());
}

#[test]
fn layers_that_look_at_each_other_still_pair() {
    let mut layers = colliders(2);
    layers[0] = Some(CollisionLayers::on(0).looking_at(1));
    layers[1] = Some(CollisionLayers::on(1).looking_at(0));

    assert_eq!(interacting_pairs(&layers), vec![(0, 1)]);
}

#[test]
fn a_collider_with_no_layers_still_pairs_with_a_filtered_one() {
    let mut layers = colliders(2);
    layers[1] = Some(CollisionLayers::on(2));

    assert_eq!(interacting_pairs(&layers), vec![(0, 1)]);
}

#[test]
fn a_body_is_never_paired_with_itself() {
    assert!(interacting_pairs(&colliders(1)).is_empty());
}

#[test]
fn three_unfiltered_colliders_give_three_pairs() {
    assert_eq!(interacting_pairs(&colliders(3)), vec![(0, 1), (0, 2), (1, 2)]);
}

#[test]
fn the_interacting_pairs_come_in_index_order() {
    let all = None;
    let ground = Some(CollisionLayers::on(1));
    let ghost = Some(CollisionLayers::on(3).looking_at(3));
    let layers = [all, ground, ghost, all];

    assert_eq!(interacting_pairs(&layers), vec![(0, 1), (0, 2), (0, 3), (1, 3), (2, 3)]);
    assert!(interacting_pairs(&[]).is_empty());
}

#[test]
fn the_layer_rule_is_the_same_either_way_round() {
    let a = CollisionLayers::on(0).looking_at(1);
    let b = CollisionLayers::on(1).looking_at(1);
    assert_eq!(CollisionLayers::interact(Some(&a), Some(&b)), CollisionLayers::interact(Some(&b), Some(&a)));
    assert!(!CollisionLayers::interact(Some(&a), Some(&b)), "a sees b, but b does not look at the layer a is on");
    assert!(CollisionLayers::interact(Some(&CollisionLayers::on(1)), Some(&a)));
    assert!(CollisionLayers::interact(None, Some(&b)));
    assert!(CollisionLayers::interact(None, None));
    assert!(!CollisionLayers::interact(None, Some(&CollisionLayers { layers: 16, mask: 0 })));
}

#[test]
fn a_layer_is_one_bit() {
    assert_eq!(CollisionLayers::bit(0), 1);
    assert_eq!(CollisionLayers::bit(5), 32);
    assert_eq!(CollisionLayers::bit(31), 0x8000_0000);
    assert_eq!(CollisionLayers::on(3), CollisionLayers { layers: 8, mask: CollisionLayers::ALL });
    assert_eq!(CollisionLayers::default(), CollisionLayers { layers: u32::MAX, mask: u32::MAX });
    assert_eq!(CollisionLayers::COUNT, 32);
}

#[test]
fn a_query_ignores_what_it_excludes() {
    let caster = Entity::new(0, 0);
    let wall = Entity::new(1, 0);
    let filter = QueryFilter::new().excluding(caster);

    assert!(!filter.allows(caster, false, None));
    assert!(filter.allows(wall, false, None));
}

#[test]
fn a_query_only_finds_the_layers_it_looks_at() {
    let ground = Entity::new(0, 0);
    let water = Entity::new(1, 0);
    let filter = QueryFilter::new().looking_at(CollisionLayers::bit(1));

    assert!(filter.allows(ground, false, Some(CollisionLayers::on(1))));
    assert!(!filter.allows(water, false, Some(CollisionLayers::on(2))), "the water is not looked at");
    assert!(filter.allows(water, false, None), "a collider with no layers is on every layer");
}

#[test]
fn a_query_walks_past_sensors_unless_asked() {
    let trigger = Entity::new(0, 0);

    assert!(!QueryFilter::new().allows(trigger, true, None));
    assert!(QueryFilter::new().with_sensors().allows(trigger, true, None));
    assert_eq!(QueryFilter::default(), QueryFilter::new());
    assert_eq!(QueryFilter::new(), QueryFilter { mask: u32::MAX, exclude: None, sensors: false });
}

#[test]
fn the_two_points_of_a_manifold_have_different_ids() {
    for reference in 0..4 {
        for incident in 0..4 {
            for flip in [false, true] {
                let (first, second) = point_ids(reference, incident, flip);
                assert_ne!(first, second, "{reference} {incident} {flip}");
            }
        }
    }
}

#[test]
fn an_id_is_the_reference_corner_then_the_incident_one() {
    assert_eq!(make_id(0, 0), 0);
    assert_eq!(make_id(2, 3), 0x0203);
    assert_eq!(make_id(3, 1), 3 * 256 + 1);
    assert_eq!(point_ids(3, 1, false), (make_id(3, 2), make_id(0, 1)));
    assert_eq!(point_ids(3, 1, true), (make_id(2, 3), make_id(1, 0)));
}

#[test]
fn sensor_pairs_follow_the_solid_ones() {
    let (a, b, c) = (Entity::new(0, 0), Entity::new(1, 0), Entity::new(2, 0));

    let pairs = overlap_pairs(&[(a, b), (b, c)], &[(a, c)]);

    assert_eq!(pairs, vec![(a, b, false), (b, c, false), (a, c, true)]);
    assert!(overlap_pairs(&[], &[]).is_empty());
}

#[test]
fn a_sprite_is_named_for_its_file() {
    assert_eq!(name_of("sprites/crate.png"), "crate");
    assert_eq!(name_of("assets/sprites/hero.idle.png"), "hero.idle");
    assert_eq!(name_of("plain"), "plain");
    assert_eq!(name_of("dir/.hidden"), ".hidden", "removing the extension would leave nothing");
    assert_eq!(name_of("a/b/"), "");
}

#[test]
fn an_unnamed_row_shows_its_slot() {
    assert_eq!(label(Some("Player"), 3), "Player");
    assert_eq!(label(None, 0), "Entity 0");
    assert_eq!(label(Some(""), 42), "Entity 42", "named the empty string mid-rename");
    assert_eq!(label(None, 4_294_967_295), "Entity 4294967295");
    assert_eq!(label(None, 1000), "Entity 1000");
}

#[test]
fn rows_the_tree_never_reached_are_listed_by_slot() {
    let e = |index: u32| Entity::new(index, 0);

    assert_eq!(orphans(&[e(5), e(1), e(3), e(2)], &[e(3)]), vec![e(1), e(2), e(5)]);
    assert!(orphans(&[e(1)], &[e(1)]).is_empty());
    assert!(orphans(&[], &[e(1)]).is_empty());
}

#[test]
fn a_collider_without_a_body_is_gathered_as_immovable() {
    let wall = Entity::new(0, 0);

    let slots = gather_slots(&[], &[wall]);
    let index = slot_of(&slots, wall).expect("gathered");

    assert_eq!(slots[index], (wall, false), "immovable");
}

#[test]
fn a_body_with_a_collider_is_gathered_once() {
    let entity = Entity::new(0, 0);

    let slots = gather_slots(&[entity], &[entity]);

    assert_eq!(slots.len(), 1);
    assert_eq!(slots[0], (entity, true), "the body won, not the hull");
}

#[test]
fn an_empty_world_gathers_nothing() {
    assert!(gather_slots(&[], &[]).is_empty());
}

#[test]
fn bodies_come_first_then_the_walls() {
    let (ball, wall, crate_, floor) = (Entity::new(0, 0), Entity::new(1, 0), Entity::new(2, 0), Entity::new(3, 0));

    let slots = gather_slots(&[ball, crate_], &[floor, ball, wall, crate_, floor]);

    assert_eq!(slots, vec![(ball, true), (crate_, true), (floor, false), (wall, false)]);
    assert_eq!(slot_of(&slots, wall), Some(3));
    assert_eq!(slot_of(&slots, Entity::new(9, 0)), None);
}

#[test]
fn a_layer_toggle_flips_its_own_bit() {
    let mask = CollisionLayers::bit(0) | CollisionLayers::bit(4);
    assert!(CollisionLayers::holds(mask, 4));
    assert!(!CollisionLayers::holds(mask, 3));
    assert_eq!(CollisionLayers::flipped(mask, 4), 1);
    assert_eq!(CollisionLayers::flipped(mask, 3), 0b11001);
    assert_eq!(CollisionLayers::flipped(CollisionLayers::ALL, 31), 0x7fff_ffff);
}
