//! Undoing and redoing scene edits.
//!
//! The history never touches the world itself. It reads the scene through a
//! [`SceneView`] — every scene entity's record and the current selection —
//! and an undo or a redo hands back the [`Restore`] that puts one side of an
//! entry back: the records to write and despawn, and the selection to resolve
//! once they have been.

pub mod edit;
pub mod history;
pub mod shortcut;

use vstd::prelude::*;

use crate::scene::{SceneId, SceneRecords};
use edit::ApplyStep;

verus! {

/// What the history reads when it captures a side of an edit.
pub struct SceneView<'a> {
    /// Every scene entity's record, as the world holds it right now.
    pub scene: &'a SceneRecords,
    /// The selection by identity: an `Entity` will not survive an undo that
    /// respawns it.
    pub selected: Option<SceneId>,
}

/// What an undo or a redo asks the caller to do to the world.
///
/// The steps are carried out in order, every one of them even after one
/// fails; then the selection is resolved against the world as it now is,
/// because the entity carrying the id may be one the steps just respawned.
#[derive(Debug)]
pub struct Restore {
    pub steps: Vec<ApplyStep>,
    pub selection: Option<SceneId>,
}

} // verus!
