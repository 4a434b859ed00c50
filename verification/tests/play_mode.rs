use voltra::play::{Play, PlaySnapshot, PlayState};
use voltra::scene::SceneId;

/// One entity of the fake world: its scene identity, if it is part of the
/// scene, and where it stands.
#[derive(Debug, Clone, Copy, PartialEq)]
struct Body {
    id: Option<SceneId>,
    at: (f32, f32),
}

/// What a snapshot keeps of the scene: every scene entity, in world order.
type Scene = Vec<(SceneId, (f32, f32))>;

/// The running application as play mode drives it, without an `App` or a GPU.
struct FakeHost {
    world: Vec<Body>,
    simulating: bool,
    steps: u32,
    /// Whether serialising the scene fails, as it does for a component whose
    /// `Serialize` refuses.
    unserialisable: bool,
    next_id: u64,
}

impl FakeHost {
    fn new() -> Self {
        FakeHost {
            world: Vec::new(),
            simulating: false,
            steps: 0,
            unserialisable: false,
            next_id: 1,
        }
    }

    /// Spawns a scene entity at `at` and returns its index in the world.
    fn spawn_scene_entity(&mut self, at: (f32, f32)) -> usize {
        let id = SceneId(self.next_id);
        self.next_id += 1;
        self.world.push(Body { id: Some(id), at });
        self.world.len() - 1
    }

    fn snapshot(&self, selected: Option<usize>) -> Result<PlaySnapshot<Scene>, ()> {
        if self.unserialisable {
            return Err(());
        }
        let scene = self.world.iter().filter_map(|body| body.id.map(|id| (id, body.at))).collect();
        let selected = selected.and_then(|index| self.world[index].id);
        Ok(PlaySnapshot { scene, selected })
    }
}

/// The toolbar's Play: the snapshot is taken only when play wants one.
fn press_play(play: &mut Play<Scene>, host: &mut FakeHost, selected: Option<usize>) {
    let snapshot = if play.wants_snapshot() { host.snapshot(selected) } else { Err(()) };
    if play.play(snapshot) {
        host.simulating = true;
    }
}

fn press_pause(play: &mut Play<Scene>, host: &mut FakeHost) {
    if play.pause() {
        host.simulating = false;
    }
}

fn press_step(play: &Play<Scene>, host: &mut FakeHost) {
    host.steps += play.step();
}

/// The toolbar's Stop: hands back the snapshot the world is restored from.
fn press_stop(play: &mut Play<Scene>, host: &mut FakeHost) -> Option<PlaySnapshot<Scene>> {
    let snapshot = play.stop();
    if snapshot.is_some() {
        host.simulating = false;
    }
    snapshot
}

#[test]
fn play_from_editing_takes_a_snapshot() {
    let mut host = FakeHost::new();
    host.spawn_scene_entity((0.0, 0.0));
    let mut play = Play::default();

    assert!(play.wants_snapshot());
    press_play(&mut play, &mut host, None);

    assert_eq!(play.state(), PlayState::Playing);
    assert!(!play.wants_snapshot(), "it has one");
    assert!(host.simulating);
}

#[test]
fn play_from_paused_does_not_replace_the_snapshot() {
    let mut host = FakeHost::new();
    let entity = host.spawn_scene_entity((0.0, 0.0));
    let id = host.world[entity].id.expect("a scene entity");
    let mut play = Play::default();

    press_play(&mut play, &mut host, None);
    press_pause(&mut play, &mut host);
    host.world[entity].at = (0.0, -5.0);
    press_play(&mut play, &mut host, None);

    let snapshot = press_stop(&mut play, &mut host).expect("play kept one");

    assert_eq!(snapshot.scene, vec![(id, (0.0, 0.0))], "the snapshot of the first Play");
}

#[test]
fn pause_stops_the_simulation_without_leaving_play() {
    let mut host = FakeHost::new();
    host.spawn_scene_entity((0.0, 0.0));
    let mut play = Play::default();
    press_play(&mut play, &mut host, None);

    press_pause(&mut play, &mut host);

    assert_eq!(play.state(), PlayState::Paused);
    assert!(!host.simulating);
    assert!(!play.wants_snapshot(), "pause must not consume it");
}

#[test]
fn step_in_editing_does_nothing() {
    let mut host = FakeHost::new();
    let play: Play<Scene> = Play::default();

    press_step(&play, &mut host);

    assert_eq!(play.state(), PlayState::Editing);
    assert_eq!(host.steps, 0);
}

#[test]
fn step_while_paused_asks_for_exactly_one() {
    let mut host = FakeHost::new();
    host.spawn_scene_entity((0.0, 0.0));
    let mut play = Play::default();
    press_play(&mut play, &mut host, None);
    press_pause(&mut play, &mut host);

    press_step(&play, &mut host);

    assert_eq!(host.steps, 1);
    assert_eq!(play.state(), PlayState::Paused, "a step is not a resume");
    assert!(!host.simulating);
}

#[test]
fn stop_in_editing_does_nothing() {
    let mut host = FakeHost::new();
    host.spawn_scene_entity((0.0, 0.0));
    let mut play = Play::default();

    let snapshot = press_stop(&mut play, &mut host);

    assert!(snapshot.is_none(), "nothing was simulated, nothing to restore");
    assert_eq!(play.state(), PlayState::Editing);
}

#[test]
fn a_failed_snapshot_leaves_the_editor_editing() {
    let mut host = FakeHost::new();
    host.spawn_scene_entity((0.0, 0.0));
    host.unserialisable = true;
    let mut play = Play::default();

    press_play(&mut play, &mut host, None);

    assert_eq!(play.state(), PlayState::Editing);
    assert!(play.wants_snapshot(), "no snapshot was kept");
    assert!(!host.simulating);
}

#[test]
fn stop_restores_a_moved_transform() {
    let mut host = FakeHost::new();
    let entity = host.spawn_scene_entity((1.0, 2.0));
    let id = host.world[entity].id.expect("a scene entity");
    let mut play = Play::default();
    press_play(&mut play, &mut host, None);
    host.world[entity].at = (-9.0, -9.0);

    let snapshot = press_stop(&mut play, &mut host).expect("play kept one");

    assert_eq!(snapshot.scene, vec![(id, (1.0, 2.0))]);
    assert_eq!(play.state(), PlayState::Editing);
    assert!(!host.simulating);
}

#[test]
fn stop_despawns_what_play_spawned() {
    let mut host = FakeHost::new();
    let kept = host.spawn_scene_entity((0.0, 0.0));
    let kept = host.world[kept].id.expect("a scene entity");
    let mut play = Play::default();
    press_play(&mut play, &mut host, None);
    let spawned = host.spawn_scene_entity((5.0, 5.0));
    let spawned = host.world[spawned].id.expect("a scene entity");

    let snapshot = press_stop(&mut play, &mut host).expect("play kept one");

    assert_eq!(snapshot.scene, vec![(kept, (0.0, 0.0))]);
    assert!(snapshot.scene.iter().all(|(id, _)| *id != spawned));
}

#[test]
fn stop_respawns_what_play_despawned() {
    let mut host = FakeHost::new();
    let entity = host.spawn_scene_entity((3.0, 0.0));
    let id = host.world[entity].id.expect("it has one");
    let mut play = Play::default();
    press_play(&mut play, &mut host, None);
    host.world.remove(entity);

    let snapshot = press_stop(&mut play, &mut host).expect("play kept one");

    assert_eq!(snapshot.scene, vec![(id, (3.0, 0.0))], "it must come back");
}

#[test]
fn the_selection_survives_by_scene_id() {
    let mut host = FakeHost::new();
    let entity = host.spawn_scene_entity((0.0, 0.0));
    let id = host.world[entity].id;
    let mut play = Play::default();

    press_play(&mut play, &mut host, Some(entity));
    let snapshot = press_stop(&mut play, &mut host).expect("play kept one");

    assert_eq!(snapshot.selected, id, "the selection must survive");
}

#[test]
fn a_selection_made_during_play_is_cleared_by_stop() {
    let mut host = FakeHost::new();
    host.spawn_scene_entity((0.0, 0.0));
    let mut play = Play::default();
    press_play(&mut play, &mut host, None);
    let during = host.spawn_scene_entity((2.0, 0.0));
    let during = host.world[during].id.expect("a scene entity");

    let snapshot = press_stop(&mut play, &mut host).expect("play kept one");

    assert_eq!(snapshot.selected, None, "it named an entity the snapshot never held");
    assert!(snapshot.scene.iter().all(|(id, _)| *id != during));
}

#[test]
fn play_while_playing_does_nothing() {
    let mut play: Play<Scene> = Play::new();
    assert!(play.play(Ok(PlaySnapshot { scene: Vec::new(), selected: None })));
    assert!(!play.play(Ok(PlaySnapshot { scene: Vec::new(), selected: Some(SceneId(9)) })));
    assert_eq!(play.state(), PlayState::Playing);
    assert!(!play.pause() || play.state() == PlayState::Paused);
}

#[test]
fn pause_outside_play_changes_nothing() {
    let mut play: Play<Scene> = Play::new();
    assert!(!play.pause());
    assert_eq!(play.state(), PlayState::Editing);
    assert_eq!(PlayState::default(), PlayState::Editing);
}

#[test]
fn stop_from_pause_hands_back_the_first_snapshot() {
    let mut play: Play<Scene> = Play::new();
    play.play(Ok(PlaySnapshot { scene: vec![(SceneId(4), (1.0, 1.0))], selected: Some(SceneId(4)) }));
    play.pause();
    play.play(Ok(PlaySnapshot { scene: Vec::new(), selected: None }));
    play.pause();

    let snapshot = play.stop().expect("paused play has one");

    assert_eq!(snapshot.scene, vec![(SceneId(4), (1.0, 1.0))]);
    assert_eq!(snapshot.selected, Some(SceneId(4)));
    assert_eq!(play.state(), PlayState::Editing);
    assert!(play.stop().is_none(), "a second Stop does nothing");
}
