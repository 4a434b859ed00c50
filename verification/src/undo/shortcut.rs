//! What the undo and redo keys asked for.

use vstd::prelude::*;

verus! {

/// What this frame's keys asked for.
#[derive(Debug, Clone, Copy, PartialEq, Eq, Structural)]
pub enum UndoAction {
    Undo,
    Redo,
}

} // verus!
