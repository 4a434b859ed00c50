use voltra::browser::{breadcrumb, path_commit, PathCommit};
use voltra::entity::Entity;
use voltra::gizmo::{gizmo_step, GizmoFrame, GizmoOutcome, GizmoStep};
use voltra::menu_bar::{default_path, entry, entry_enabled};
use voltra::sprite::{edit_frames, frame_bound, last_frame, mirrored, next_frame};
use voltra::tool::Tool;
use voltra::view::{View, ViewMode};

/// The editor camera as the viewport keeps it: where it looks, how far in,
/// and the shape of the target it is drawn into.
#[derive(Debug, Clone, Copy, PartialEq)]
struct Camera {
    x: f32,
    y: f32,
    zoom: f32,
    aspect: f32,
}

fn editor_camera() -> Camera {
    Camera { x: 7.0, y: -3.0, zoom: 4.0, aspect: 1.5 }
}

/// What the viewport does with the camera `set_mode` hands back: position and
/// zoom, not the aspect, which belongs to the target.
fn put_back(camera: &mut Camera, parked: Option<Camera>) {
    if let Some(parked) = parked {
        camera.x = parked.x;
        camera.y = parked.y;
        camera.zoom = parked.zoom;
    }
}

#[test]
fn every_tool_has_its_own_history_label() {
    let mut labels: Vec<&str> = Tool::ALL.iter().map(|tool| tool.label()).collect();
    labels.sort_unstable();
    labels.dedup();
    assert_eq!(labels.len(), Tool::ALL.len(), "two tools share a label");
}

#[test]
fn every_tool_has_its_own_key() {
    let mut keys: Vec<char> = Tool::ALL.iter().map(|tool| tool.key()).collect();
    keys.dedup();
    assert_eq!(keys.len(), Tool::ALL.len(), "two tools share a key");
}

#[test]
fn the_keys_are_the_ones_every_editor_uses() {
    assert_eq!(Tool::Translate.key(), 'W');
    assert_eq!(Tool::Rotate.key(), 'E');
    assert_eq!(Tool::Scale.key(), 'R');
}

#[test]
fn the_default_tool_is_translate() {
    assert_eq!(Tool::default(), Tool::Translate);
}

#[test]
fn the_tools_are_named_for_what_a_drag_does() {
    assert_eq!(Tool::Translate.label(), "Move");
    assert_eq!(Tool::Rotate.label(), "Rotate");
    assert_eq!(Tool::Scale.label(), "Scale");
    assert!(Tool::Rotate.hint().starts_with("Rotate (E)"));
    assert_eq!(Tool::Scale.glyph(), "⤢");
}

#[test]
fn a_new_view_shows_the_scene() {
    let view: View<Camera> = View::default();
    assert_eq!(view.mode(), ViewMode::Scene);
    assert!(!view.is_game());
}

#[test]
fn going_to_the_game_view_and_back_puts_the_editor_camera_back() {
    let mut view = View::default();
    let mut camera = editor_camera();
    let before = camera;

    let parked = view.set_mode(ViewMode::Game, camera);
    assert_eq!(parked, None);
    assert!(view.is_game());
    // The game camera writes over it while the mode is on.
    camera.x = 100.0;
    camera.y = 100.0;
    camera.zoom = 0.5;
    let parked = view.set_mode(ViewMode::Scene, camera);
    put_back(&mut camera, parked);

    assert_eq!((camera.x, camera.y), (before.x, before.y));
    assert_eq!(camera.zoom, before.zoom);
}

#[test]
fn a_resize_during_the_game_view_keeps_the_new_aspect() {
    let mut view = View::default();
    let mut camera = editor_camera();

    let parked = view.set_mode(ViewMode::Game, camera);
    put_back(&mut camera, parked);
    camera.aspect = 2.5;
    let parked = view.set_mode(ViewMode::Scene, camera);
    put_back(&mut camera, parked);

    assert_eq!(camera.aspect, 2.5, "the target's aspect is not the camera's to restore");
}

#[test]
fn setting_the_mode_already_in_effect_parks_nothing() {
    let mut view = View::default();
    let mut camera = editor_camera();
    let before = camera;

    view.set_mode(ViewMode::Game, camera);
    camera.x = 50.0;
    camera.y = 50.0;
    // A second click on the same button, which every toolbar allows.
    assert_eq!(view.set_mode(ViewMode::Game, camera), None);
    let parked = view.set_mode(ViewMode::Scene, camera);
    put_back(&mut camera, parked);

    assert_eq!((camera.x, camera.y), (before.x, before.y));
}

#[test]
fn leaving_the_scene_view_twice_hands_nothing_back() {
    let mut view: View<Camera> = View::new();
    assert_eq!(view.set_mode(ViewMode::Scene, editor_camera()), None);
    assert_eq!(view.mode(), ViewMode::Scene);
}

#[test]
fn the_view_modes_are_named_for_their_camera() {
    assert_eq!(ViewMode::default(), ViewMode::Scene);
    assert_eq!(ViewMode::ALL, [ViewMode::Scene, ViewMode::Game]);
    assert_eq!(ViewMode::Scene.label(), "Scene");
    assert_eq!(ViewMode::Game.label(), "Game");
    assert!(ViewMode::Game.hint().contains("active camera"));
}

#[test]
fn a_scene_is_saved_under_the_scenes_folder_by_default() {
    assert_eq!(default_path(), "assets/scenes/scene.ron");
}

#[test]
fn the_path_bar_leads_to_every_directory_on_the_way() {
    let bar = breadcrumb("sprites/ui/buttons");
    let bar: Vec<(&str, &str)> = bar.iter().map(|(part, walked)| (part.as_str(), walked.as_str())).collect();
    assert_eq!(bar, vec![("sprites", "sprites"), ("ui", "sprites/ui"), ("buttons", "sprites/ui/buttons")]);
}

#[test]
fn a_directory_at_the_root_is_one_button() {
    assert_eq!(breadcrumb("sprites"), vec![("sprites".to_owned(), "sprites".to_owned())]);
}

#[test]
fn the_edit_menu_names_what_it_would_put_back() {
    assert_eq!(entry("Undo", Some("Move")), "Undo Move");
    assert_eq!(entry("Redo", Some("Spawn sprite")), "Redo Spawn sprite");
    assert_eq!(entry("Undo", None), "Undo");
    assert!(entry_enabled(true, 1));
    assert!(!entry_enabled(false, 3), "not while playing");
    assert!(!entry_enabled(true, 0), "not with nothing to put back");
}

fn pointer_over(selected: Option<Entity>) -> GizmoFrame {
    GizmoFrame {
        viewport_empty: false,
        button_down: true,
        has_pointer: true,
        target_alive: true,
        drag_started: true,
        selected,
        on_handle: true,
    }
}

#[test]
fn a_press_on_a_handle_begins_a_drag_and_takes_the_pointer() {
    let entity = Entity::new(3, 0);
    let (step, outcome) = gizmo_step(None, pointer_over(Some(entity)));
    assert_eq!(step, GizmoStep::Grab(entity));
    assert_eq!(outcome, GizmoOutcome { consumed: true, dragging: Some(entity) });
}

#[test]
fn a_press_off_the_handles_is_left_to_the_scene() {
    let entity = Entity::new(3, 0);
    let frame = GizmoFrame { on_handle: false, ..pointer_over(Some(entity)) };
    assert_eq!(gizmo_step(None, frame), (GizmoStep::Pass, GizmoOutcome { consumed: false, dragging: None }));
    let nothing_selected = pointer_over(None);
    assert_eq!(gizmo_step(None, nothing_selected).0, GizmoStep::Pass);
}

#[test]
fn a_drag_moves_its_entity_until_the_release() {
    let entity = Entity::new(1, 2);
    let frame = GizmoFrame { drag_started: false, selected: None, on_handle: false, ..pointer_over(None) };
    assert_eq!(gizmo_step(Some(entity), frame), (GizmoStep::Move, GizmoOutcome { consumed: true, dragging: Some(entity) }));

    let released = GizmoFrame { button_down: false, ..frame };
    assert_eq!(gizmo_step(Some(entity), released), (GizmoStep::Release, GizmoOutcome { consumed: true, dragging: None }));
}

#[test]
fn a_drag_whose_entity_is_gone_ends() {
    let entity = Entity::new(1, 2);
    let frame = GizmoFrame { target_alive: false, ..pointer_over(None) };
    assert_eq!(gizmo_step(Some(entity), frame), (GizmoStep::Lost, GizmoOutcome { consumed: true, dragging: None }));
}

#[test]
fn a_drag_survives_a_frame_without_a_pointer() {
    let entity = Entity::new(1, 2);
    let frame = GizmoFrame { has_pointer: false, ..pointer_over(None) };
    assert_eq!(gizmo_step(Some(entity), frame), (GizmoStep::Hold, GizmoOutcome { consumed: true, dragging: Some(entity) }));
    assert_eq!(gizmo_step(None, frame), (GizmoStep::Hold, GizmoOutcome { consumed: false, dragging: None }));
}

#[test]
fn a_minimised_window_cancels_the_drag() {
    let entity = Entity::new(1, 2);
    let frame = GizmoFrame { viewport_empty: true, ..pointer_over(Some(entity)) };
    assert_eq!(gizmo_step(Some(entity), frame), (GizmoStep::Cancel, GizmoOutcome { consumed: false, dragging: None }));
}

#[test]
fn plus_appends_the_frame_after_the_last_one() {
    let last = last_frame(8);
    assert_eq!(last, 7);
    assert_eq!(next_frame(&[2, 3], last), 4);
    assert_eq!(next_frame(&[5, 7], last), 0, "wrapping past the end of the sheet");
    assert_eq!(next_frame(&[], last), 0);
    assert_eq!(next_frame(&[4], last_frame(0)), 0, "no sheet: every index is the first");
}

#[test]
fn a_clip_row_appends_then_drops() {
    let mut frames = vec![0, 1, 2];
    assert!(edit_frames(&mut frames, 7, true, Some(0)));
    assert_eq!(frames, vec![1, 2, 3]);

    assert!(edit_frames(&mut frames, 7, false, Some(2)));
    assert_eq!(frames, vec![1, 2]);

    assert!(!edit_frames(&mut frames, 7, false, None));
    assert_eq!(frames, vec![1, 2]);
}

#[test]
fn a_frame_index_is_bounded_only_by_a_loaded_sheet() {
    assert_eq!(frame_bound(0), None);
    assert_eq!(frame_bound(1), Some(0));
    assert_eq!(frame_bound(12), Some(11));
}

#[test]
fn a_mirrored_axis_swaps_its_ends() {
    assert_eq!(mirrored(false, 0.25_f32, 0.5), (0.25, 0.5));
    assert_eq!(mirrored(true, 0.25_f32, 0.5), (0.5, 0.25));
}

#[test]
fn a_path_field_commits_only_when_left() {
    assert_eq!(path_commit(false, false, "sprites/a.png", ""), PathCommit::Keep, "typing alone changes nothing");
    assert_eq!(path_commit(false, true, "sprites/a.png", ""), PathCommit::Submit);
    assert_eq!(path_commit(false, true, "sprites/a.png", "sprites/a.png"), PathCommit::Keep);
    assert_eq!(path_commit(false, true, "", "sprites/a.png"), PathCommit::Clear, "emptied");
    assert_eq!(path_commit(true, false, "sprites/b.png", "sprites/a.png"), PathCommit::Clear);
}
