//! When a press on the transform gizmo begins a drag, and when one ends.
//!
//! The gizmo's arithmetic — where its handles are on screen and what a drag
//! does to a transform — is floating point and stays with the caller. What
//! this module decides is the frame around it: whether the pointer belongs to
//! the gizmo this frame, which entity a drag holds, and when a drag begins,
//! moves its entity, or ends.

use vstd::prelude::*;

use crate::entity::Entity;

verus! {

/// What the pointer and the world look like this frame, as the gizmo reads
/// them.
#[derive(Debug, Clone, Copy, PartialEq, Eq, Structural)]
pub struct GizmoFrame {
    /// The viewport has no area: the window is minimised.
    pub viewport_empty: bool,
    /// A pointer button is held down on the viewport.
    pub button_down: bool,
    /// The pointer's position over the viewport is known.
    pub has_pointer: bool,
    /// The entity a drag holds still has a transform to write.
    pub target_alive: bool,
    /// A primary-button drag started this frame.
    pub drag_started: bool,
    /// The selected entity, if it has a transform; `None` otherwise.
    pub selected: Option<Entity>,
    /// The active tool's handle is under the pointer.
    pub on_handle: bool,
}

/// What the gizmo does this frame.
#[derive(Debug, Clone, Copy, PartialEq, Eq, Structural)]
pub enum GizmoStep {
    /// Abandon any drag and take nothing: there is no viewport to work in.
    Cancel,
    /// The drag ends, wherever the pointer is: a release belongs to the drag,
    /// not to whatever is under the cursor.
    Release,
    /// Keep the drag as it is: the pointer is nowhere this frame.
    Hold,
    /// Write the drag's transform to the entity it holds.
    Move,
    /// The dragged entity lost its transform or was despawned: the drag ends
    /// with nothing left to write.
    Lost,
    /// Leave the pointer to the scene: no drag, and none begins.
    Pass,
    /// Begin dragging the selected entity by the handle under the pointer.
    Grab(Entity),
}

/// What one frame of gizmo interaction did.
#[derive(Debug, Clone, Copy, PartialEq, Eq, Structural)]
pub struct GizmoOutcome {
    /// Whether the pointer was consumed; the caller must not also select.
    pub consumed: bool,
    /// The entity a drag is holding, on every frame it holds one.
    pub dragging: Option<Entity>,
}

/// What the gizmo does this frame while `dragging` names the entity a drag
/// holds, if one does.
pub open spec fn step_spec(dragging: Option<Entity>, frame: GizmoFrame) -> GizmoStep {
    if frame.viewport_empty {
        GizmoStep::Cancel
    } else if dragging is Some && !frame.button_down {
        GizmoStep::Release
    } else if !frame.has_pointer {
        GizmoStep::Hold
    } else if dragging is Some {
        if frame.target_alive {
            GizmoStep::Move
        } else {
            GizmoStep::Lost
        }
    } else if frame.drag_started && frame.on_handle && frame.selected is Some {
        GizmoStep::Grab(frame.selected->0)
    } else {
        GizmoStep::Pass
    }
}

/// What a frame that took `step` reports: whether the pointer was taken, and
/// which entity a drag holds once the step is done.
pub open spec fn outcome_spec(dragging: Option<Entity>, step: GizmoStep) -> GizmoOutcome {
    match step {
        GizmoStep::Cancel => GizmoOutcome { consumed: false, dragging: None },
        GizmoStep::Release => GizmoOutcome { consumed: true, dragging: None },
        GizmoStep::Hold => GizmoOutcome { consumed: dragging is Some, dragging },
        GizmoStep::Move => GizmoOutcome { consumed: true, dragging },
        GizmoStep::Lost => GizmoOutcome { consumed: true, dragging: None },
        GizmoStep::Pass => GizmoOutcome { consumed: false, dragging: None },
        GizmoStep::Grab(entity) => GizmoOutcome { consumed: true, dragging: Some(entity) },
    }
}

/// Decides one frame of gizmo interaction.
///
/// A handle drawn on top of a sprite wins the press, or the gizmo would be
/// unusable exactly when the sprite fills the viewport; the outcome's
/// `consumed` tells the caller not to select as well.
pub fn gizmo_step(dragging: Option<Entity>, frame: GizmoFrame) -> (decided: (GizmoStep, GizmoOutcome))
    ensures
        decided.0 == step_spec(dragging, frame),
        decided.1 == outcome_spec(dragging, decided.0),
        decided.0 matches GizmoStep::Grab(entity) ==> dragging is None && frame.drag_started
            && frame.on_handle && frame.selected == Some(entity) && !frame.viewport_empty
            && frame.has_pointer,
        dragging is None && !frame.drag_started ==> decided.1.dragging is None
            && !decided.1.consumed,
        dragging is None && !frame.viewport_empty && frame.has_pointer && frame.drag_started
            && frame.on_handle && frame.selected is Some ==> decided.0 == GizmoStep::Grab(
            frame.selected->0,
        ) && decided.1.consumed && decided.1.dragging == frame.selected,
{
    let step = if frame.viewport_empty {
        GizmoStep::Cancel
    } else if dragging.is_some() && !frame.button_down {
        GizmoStep::Release
    } else if !frame.has_pointer {
        GizmoStep::Hold
    } else if dragging.is_some() {
        if frame.target_alive {
            GizmoStep::Move
        } else {
            GizmoStep::Lost
        }
    } else {
        match frame.selected {
            Some(entity) => if frame.drag_started && frame.on_handle {
                GizmoStep::Grab(entity)
            } else {
                GizmoStep::Pass
            },
            None => GizmoStep::Pass,
        }
    };
    let outcome = match step {
        GizmoStep::Cancel => GizmoOutcome { consumed: false, dragging: None },
        GizmoStep::Release => GizmoOutcome { consumed: true, dragging: None },
        GizmoStep::Hold => GizmoOutcome { consumed: dragging.is_some(), dragging },
        GizmoStep::Move => GizmoOutcome { consumed: true, dragging },
        GizmoStep::Lost => GizmoOutcome { consumed: true, dragging: None },
        GizmoStep::Pass => GizmoOutcome { consumed: false, dragging: None },
        GizmoStep::Grab(entity) => GizmoOutcome { consumed: true, dragging: Some(entity) },
    };
    (step, outcome)
}

/// A drag, once begun, holds its entity on every frame until the frame that
/// ends it, and a drag ends only when the button is released, the entity is
/// gone, or the viewport is.
pub proof fn lemma_a_drag_holds_until_released(entity: Entity, frame: GizmoFrame)
    ensures
        outcome_spec(Some(entity), step_spec(Some(entity), frame)).dragging is Some ==> outcome_spec(
            Some(entity),
            step_spec(Some(entity), frame),
        ).dragging == Some(entity),
        outcome_spec(Some(entity), step_spec(Some(entity), frame)).dragging is None <==> (
        frame.viewport_empty || !frame.button_down || (frame.has_pointer && !frame.target_alive)),
{
}

/// While a drag is live the pointer is the gizmo's: the caller never selects
/// on a frame a drag is holding an entity.
pub proof fn lemma_a_live_drag_consumes_the_pointer(dragging: Option<Entity>, frame: GizmoFrame)
    ensures
        outcome_spec(dragging, step_spec(dragging, frame)).dragging is Some ==> outcome_spec(
            dragging,
            step_spec(dragging, frame),
        ).consumed,
{
}

/// A drag begins only on a primary-button press that starts on a handle of
/// the selected entity, and then it holds that entity and takes the pointer;
/// with no drag held and no press, the gizmo neither grabs nor takes the
/// pointer, wherever the pointer hovers.
pub proof fn lemma_only_a_press_on_a_handle_grabs(frame: GizmoFrame)
    ensures
        step_spec(None, frame) matches GizmoStep::Grab(entity) ==> frame.drag_started
            && frame.on_handle && frame.selected == Some(entity),
        !frame.drag_started ==> outcome_spec(None, step_spec(None, frame)).dragging is None
            && !outcome_spec(None, step_spec(None, frame)).consumed,
        !frame.viewport_empty && frame.has_pointer && frame.drag_started && frame.on_handle
            && frame.selected is Some ==> outcome_spec(None, step_spec(None, frame)).dragging
            == frame.selected && outcome_spec(None, step_spec(None, frame)).consumed,
{
}

} // verus!
