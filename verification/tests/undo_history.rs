use voltra::scene::{SceneId, SceneRecords};
use voltra::undo::edit::{same_record, ApplyStep, Edit, EntityChange, Side};
use voltra::undo::history::{History, MAX_EDITS};
use voltra::undo::{Restore, SceneView};

/// A world of sprites, each a scene identity and an `x`, in the order the
/// world stores them. A sprite's record is its `x` written out.
struct FakeHost {
    world: Vec<(SceneId, f32)>,
    selected: Option<usize>,
    next_id: u64,
}

impl FakeHost {
    fn new() -> Self {
        FakeHost { world: Vec::new(), selected: None, next_id: 1 }
    }

    /// Spawns a sprite at `x` and returns its identity.
    fn spawn(&mut self, x: f32) -> SceneId {
        let id = SceneId(self.next_id);
        self.next_id += 1;
        self.world.push((id, x));
        id
    }

    fn entity_with_id(&self, id: SceneId) -> Option<usize> {
        self.world.iter().position(|(other, _)| *other == id)
    }

    fn move_to(&mut self, id: SceneId, x: f32) {
        let entity = self.entity_with_id(id).expect("it is there");
        self.world[entity].1 = x;
    }

    fn x_of(&self, id: SceneId) -> Option<f32> {
        self.entity_with_id(id).map(|entity| self.world[entity].1)
    }

    fn despawn(&mut self, id: SceneId) {
        if let Some(entity) = self.entity_with_id(id) {
            self.world.remove(entity);
        }
    }

    fn records(&self) -> SceneRecords {
        SceneRecords { entries: self.world.iter().map(|(id, x)| (*id, Ok(record(*x)))).collect() }
    }

    fn selected_id(&self) -> Option<SceneId> {
        self.selected.map(|entity| self.world[entity].0)
    }

    /// Carries out every step, then resolves the selection against the world
    /// the steps left, as the editor does with what an undo hands back.
    fn apply(&mut self, steps: Vec<ApplyStep>) {
        for step in steps {
            match step {
                ApplyStep::Write(id, text) => {
                    let x: f32 = text.trim_start_matches("x=").parse().expect("a record");
                    match self.entity_with_id(id) {
                        Some(entity) => self.world[entity].1 = x,
                        None => self.world.push((id, x)),
                    }
                },
                ApplyStep::Despawn(id) => self.despawn(id),
            }
        }
    }

    fn restore(&mut self, restore: Option<Restore>) -> bool {
        match restore {
            Some(restore) => {
                self.apply(restore.steps);
                self.selected = restore.selection.and_then(|id| self.entity_with_id(id));
                true
            },
            None => false,
        }
    }
}

fn record(x: f32) -> String {
    format!("x={}", x)
}

/// Runs `f` with the history's view of the world as it is now.
fn watch(history: &mut History, host: &FakeHost, ids: &[SceneId]) {
    let scene = host.records();
    history.watch(SceneView { scene: &scene, selected: host.selected_id() }, ids);
}

fn end_frame(history: &mut History, host: &FakeHost) {
    let scene = host.records();
    history.end_frame(SceneView { scene: &scene, selected: host.selected_id() });
}

fn begin(history: &mut History, label: &'static str, host: &FakeHost, ids: &[SceneId]) {
    let scene = host.records();
    history.begin(label, SceneView { scene: &scene, selected: host.selected_id() }, ids);
}

fn commit(history: &mut History, host: &FakeHost) {
    let scene = host.records();
    history.commit(SceneView { scene: &scene, selected: host.selected_id() });
}

fn commit_including(history: &mut History, host: &FakeHost, ids: &[SceneId]) {
    let scene = host.records();
    history.commit_including(SceneView { scene: &scene, selected: host.selected_id() }, ids);
}

fn undo(history: &mut History, host: &mut FakeHost) -> bool {
    let restore = history.undo();
    host.restore(restore)
}

fn redo(history: &mut History, host: &mut FakeHost) -> bool {
    let restore = history.redo();
    host.restore(restore)
}

fn change(id: SceneId, before: Option<f32>, after: Option<f32>) -> EntityChange {
    EntityChange { id, before: before.map(record), after: after.map(record) }
}

#[test]
fn a_modification_applies_in_both_directions() {
    let mut host = FakeHost::new();
    let id = host.spawn(1.0);
    host.move_to(id, 5.0);
    let edit = Edit {
        label: "Move",
        entities: vec![change(id, Some(1.0), Some(5.0))],
        selected_before: Some(id),
        selected_after: Some(id),
    };

    host.apply(edit.steps(Side::Before));
    assert_eq!(host.x_of(id), Some(1.0));
    host.apply(edit.steps(Side::After));
    assert_eq!(host.x_of(id), Some(5.0));
}

#[test]
fn a_spawn_undoes_to_nothing_and_redoes_back() {
    let mut host = FakeHost::new();
    let id = host.spawn(2.0);
    let edit = Edit {
        label: "Spawn sprite",
        entities: vec![change(id, None, Some(2.0))],
        selected_before: None,
        selected_after: Some(id),
    };

    host.apply(edit.steps(Side::Before));
    assert_eq!(host.world.len(), 0, "undoing a spawn despawns it");
    host.apply(edit.steps(Side::After));
    assert_eq!(host.x_of(id), Some(2.0), "redo brings it back with its data");
}

#[test]
fn a_delete_undoes_by_reviving_the_same_scene_id() {
    let mut host = FakeHost::new();
    let id = host.spawn(3.0);
    host.despawn(id);
    let edit = Edit {
        label: "Delete",
        entities: vec![change(id, Some(3.0), None)],
        selected_before: Some(id),
        selected_after: None,
    };

    host.apply(edit.steps(Side::Before));
    assert_eq!(host.x_of(id), Some(3.0));
    host.apply(edit.steps(Side::After));
    assert_eq!(host.x_of(id), None);
}

#[test]
fn applying_a_side_twice_changes_nothing_the_second_time() {
    let mut host = FakeHost::new();
    let id = host.spawn(4.0);
    host.despawn(id);
    let edit = Edit {
        label: "Delete",
        entities: vec![change(id, Some(4.0), None)],
        selected_before: Some(id),
        selected_after: None,
    };

    host.apply(edit.steps(Side::Before));
    host.apply(edit.steps(Side::Before));

    assert_eq!(host.world.len(), 1);
}

#[test]
fn an_edit_whose_sides_match_is_a_noop() {
    let id = SceneId(1);
    let edit = Edit {
        label: "Move",
        entities: vec![change(id, Some(1.0), Some(1.0))],
        selected_before: Some(id),
        selected_after: Some(id),
    };
    assert!(edit.is_noop(), "a grab that moved nothing must not be an entry");
}

#[test]
fn an_edit_with_one_changed_entity_is_not_a_noop() {
    let id = SceneId(1);
    let edit = Edit {
        label: "Move",
        entities: vec![change(id, Some(1.0), Some(7.0))],
        selected_before: Some(id),
        selected_after: Some(id),
    };
    assert!(!edit.is_noop());
}

#[test]
fn the_selection_comes_from_the_side_being_applied() {
    let id = SceneId(1);
    let edit = Edit {
        label: "Delete",
        entities: vec![change(id, Some(1.0), None)],
        selected_before: Some(id),
        selected_after: None,
    };
    assert_eq!(edit.selection(Side::Before), Some(id));
    assert_eq!(edit.selection(Side::After), None);
}

#[test]
fn the_steps_follow_the_entries_order() {
    let (a, b) = (SceneId(1), SceneId(2));
    let edit = Edit {
        label: "Clear",
        entities: vec![change(a, Some(1.0), None), change(b, None, Some(2.0))],
        selected_before: None,
        selected_after: None,
    };

    let steps = edit.steps(Side::After);

    assert_eq!(steps.len(), 2);
    assert!(matches!(steps[0], ApplyStep::Despawn(id) if id == a));
    assert!(matches!(&steps[1], ApplyStep::Write(id, text) if *id == b && text == "x=2"));
    assert_eq!(edit.entities[1].side(Side::Before), &None);
}

#[test]
fn two_missing_records_are_the_same_record() {
    assert!(same_record(&None, &None));
    assert!(same_record(&Some(record(1.0)), &Some(record(1.0))));
    assert!(!same_record(&Some(record(1.0)), &None));
    assert!(!same_record(&Some(record(1.0)), &Some(record(2.0))));
}

#[test]
fn a_capture_finds_the_first_entity_with_the_id() {
    let scene = SceneRecords {
        entries: vec![(SceneId(1), Err(())), (SceneId(2), Ok(record(2.0))), (SceneId(2), Err(()))],
    };
    assert_eq!(scene.capture(SceneId(2)), Ok(Some(record(2.0))));
    assert_eq!(scene.capture(SceneId(1)), Err(()));
    assert_eq!(scene.capture(SceneId(3)), Ok(None));
    assert_eq!(SceneRecords::new().capture(SceneId(1)), Ok(None));
}

#[test]
fn the_history_starts_empty() {
    let history = History::default();
    assert!(history.is_empty());
    assert_eq!(history.undo_label(), None);
}

#[test]
fn a_watched_change_with_no_claim_becomes_one_entry() {
    let mut host = FakeHost::new();
    let mut history = History::default();
    let id = host.spawn(1.0);

    watch(&mut history, &host, &[id]);
    host.move_to(id, 5.0);
    end_frame(&mut history, &host);

    assert_eq!(history.len(), 1);
    assert_eq!(history.undo_label(), Some("Edit"));
    assert!(undo(&mut history, &mut host));
    assert_eq!(host.x_of(id), Some(1.0));
}

#[test]
fn a_claim_every_frame_makes_one_entry_not_one_per_frame() {
    let mut host = FakeHost::new();
    let mut history = History::default();
    let id = host.spawn(0.0);

    for step in 1..=5 {
        watch(&mut history, &host, &[id]);
        host.move_to(id, step as f32);
        history.claim("Move");
        end_frame(&mut history, &host);
    }
    assert_eq!(history.len(), 0, "still open while the claims arrive");

    // The release frame: no claim.
    watch(&mut history, &host, &[id]);
    end_frame(&mut history, &host);

    assert_eq!(history.len(), 1);
    assert_eq!(history.undo_label(), Some("Move"));
}

#[test]
fn undoing_a_drag_returns_to_where_it_started() {
    let mut host = FakeHost::new();
    let mut history = History::default();
    let id = host.spawn(0.0);

    for step in 1..=3 {
        watch(&mut history, &host, &[id]);
        host.move_to(id, step as f32);
        history.claim("Move");
        end_frame(&mut history, &host);
    }
    watch(&mut history, &host, &[id]);
    end_frame(&mut history, &host);

    undo(&mut history, &mut host);
    assert_eq!(host.x_of(id), Some(0.0), "not 2.0: the whole drag is one entry");
}

#[test]
fn nothing_changed_pushes_nothing() {
    let mut host = FakeHost::new();
    let mut history = History::default();
    let id = host.spawn(1.0);

    watch(&mut history, &host, &[id]);
    history.claim("Move");
    end_frame(&mut history, &host);
    watch(&mut history, &host, &[id]);
    end_frame(&mut history, &host);

    assert_eq!(history.len(), 0, "a grab that moved nothing is not an entry");
}

#[test]
fn redo_replays_the_change() {
    let mut host = FakeHost::new();
    let mut history = History::default();
    let id = host.spawn(1.0);

    watch(&mut history, &host, &[id]);
    host.move_to(id, 5.0);
    end_frame(&mut history, &host);

    undo(&mut history, &mut host);
    assert_eq!(host.x_of(id), Some(1.0));
    assert_eq!(history.redo_label(), Some("Edit"));
    assert!(redo(&mut history, &mut host));
    assert_eq!(host.x_of(id), Some(5.0));
}

#[test]
fn a_new_edit_clears_the_redo_stack() {
    let mut host = FakeHost::new();
    let mut history = History::default();
    let id = host.spawn(1.0);

    watch(&mut history, &host, &[id]);
    host.move_to(id, 2.0);
    end_frame(&mut history, &host);
    undo(&mut history, &mut host);
    assert_eq!(history.redo_len(), 1);

    watch(&mut history, &host, &[id]);
    host.move_to(id, 9.0);
    end_frame(&mut history, &host);

    assert_eq!(history.redo_len(), 0, "the branch that was redone away is gone");
}

#[test]
fn undo_and_redo_report_whether_there_was_anything_to_do() {
    let mut host = FakeHost::new();
    let mut history = History::default();

    assert!(!undo(&mut history, &mut host));
    assert!(!redo(&mut history, &mut host));
}

#[test]
fn an_explicit_edit_records_a_spawn() {
    let mut host = FakeHost::new();
    let mut history = History::default();

    begin(&mut history, "Spawn sprite", &host, &[]);
    let id = host.spawn(4.0);
    commit_including(&mut history, &host, &[id]);

    assert_eq!(history.len(), 1);
    undo(&mut history, &mut host);
    assert_eq!(host.world.len(), 0);
    redo(&mut history, &mut host);
    assert_eq!(host.x_of(id), Some(4.0));
}

#[test]
fn an_explicit_edit_records_a_delete_and_restores_the_selection() {
    let mut host = FakeHost::new();
    let mut history = History::default();
    let id = host.spawn(6.0);
    host.selected = host.entity_with_id(id);

    begin(&mut history, "Delete", &host, &[id]);
    host.selected = None;
    host.despawn(id);
    commit(&mut history, &host);

    undo(&mut history, &mut host);

    assert_eq!(host.x_of(id), Some(6.0));
    assert_eq!(
        host.selected,
        host.entity_with_id(id),
        "undoing a delete selects what it brought back"
    );
    assert!(host.selected.is_some());
}

#[test]
fn an_explicit_edit_stops_the_watcher_recording_it_twice() {
    let mut host = FakeHost::new();
    let mut history = History::default();
    let id = host.spawn(1.0);

    watch(&mut history, &host, &[id]);
    begin(&mut history, "Delete", &host, &[id]);
    host.despawn(id);
    commit(&mut history, &host);
    end_frame(&mut history, &host);

    assert_eq!(history.len(), 1, "one delete, one entry");
}

#[test]
fn an_undo_does_not_become_an_entry() {
    let mut host = FakeHost::new();
    let mut history = History::default();
    let id = host.spawn(1.0);

    watch(&mut history, &host, &[id]);
    host.move_to(id, 5.0);
    end_frame(&mut history, &host);

    watch(&mut history, &host, &[id]);
    undo(&mut history, &mut host);
    end_frame(&mut history, &host);

    assert_eq!(history.len(), 0);
    assert_eq!(history.redo_len(), 1);
}

#[test]
fn the_cap_drops_the_oldest_entry() {
    let mut host = FakeHost::new();
    let mut history = History::default();
    let id = host.spawn(0.0);

    for step in 1..=(MAX_EDITS + 10) {
        watch(&mut history, &host, &[id]);
        host.move_to(id, step as f32);
        end_frame(&mut history, &host);
    }

    assert_eq!(history.len(), MAX_EDITS);
    // The oldest survivor is the eleventh move, from 10 to 11.
    for _ in 0..MAX_EDITS {
        assert!(undo(&mut history, &mut host));
    }
    assert_eq!(host.x_of(id), Some(10.0));
    assert!(!undo(&mut history, &mut host));
}

#[test]
fn clear_empties_both_stacks() {
    let mut host = FakeHost::new();
    let mut history = History::default();
    let id = host.spawn(1.0);

    watch(&mut history, &host, &[id]);
    host.move_to(id, 2.0);
    end_frame(&mut history, &host);
    undo(&mut history, &mut host);

    history.clear();

    assert_eq!(history.len(), 0);
    assert_eq!(history.redo_len(), 0);
    assert_eq!(history.undo_label(), None);
    assert_eq!(history.redo_label(), None);
}

#[test]
fn a_watch_that_cannot_serialize_forgets_the_history() {
    let mut host = FakeHost::new();
    let mut history = History::new();
    let id = host.spawn(1.0);
    watch(&mut history, &host, &[id]);
    host.move_to(id, 2.0);
    end_frame(&mut history, &host);
    assert_eq!(history.len(), 1);

    let broken = SceneRecords { entries: vec![(id, Err(()))] };
    history.watch(SceneView { scene: &broken, selected: None }, &[id]);

    assert!(history.is_empty());
    assert_eq!(history.redo_len(), 0);
}

#[test]
fn the_selected_entity_is_resolved_against_the_world_after_the_apply() {
    let mut host = FakeHost::new();
    let id = host.spawn(3.0);
    host.spawn(9.0);
    let old_slot = host.entity_with_id(id);
    host.despawn(id);
    let edit = Edit {
        label: "Delete",
        entities: vec![change(id, Some(3.0), None)],
        selected_before: Some(id),
        selected_after: None,
    };

    host.apply(edit.steps(Side::Before));
    let revived = edit.selection(Side::Before).and_then(|id| host.entity_with_id(id));

    assert_eq!(revived, host.entity_with_id(id));
    assert_ne!(revived, old_slot, "the old handle is not reused");
}

#[test]
fn a_commit_at_the_cap_clears_redo_and_keeps_the_newest() {
    let mut host = FakeHost::new();
    let mut history = History::default();
    let id = host.spawn(0.0);

    for step in 1..=MAX_EDITS {
        begin(&mut history, "Move", &host, &[id]);
        host.move_to(id, step as f32);
        commit(&mut history, &host);
    }
    assert_eq!(history.len(), MAX_EDITS);
    assert!(undo(&mut history, &mut host));
    assert_eq!(history.redo_len(), 1);

    begin(&mut history, "Nudge", &host, &[id]);
    host.move_to(id, -1.0);
    commit(&mut history, &host);
    assert_eq!(history.len(), MAX_EDITS);
    assert_eq!(history.redo_len(), 0, "the branch that was undone away is gone");
    assert_eq!(history.undo_label(), Some("Nudge"));

    begin(&mut history, "Nudge again", &host, &[id]);
    host.move_to(id, -2.0);
    commit(&mut history, &host);
    assert_eq!(history.len(), MAX_EDITS, "the oldest entry made room");
    assert_eq!(history.undo_label(), Some("Nudge again"));
}
