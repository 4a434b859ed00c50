//! Voltra's editor and physics logic: the decisions, each with a contract.
//!
//! The library holds the parts of the engine that decide things: which
//! transform tool is active and what it is called, when a press on the gizmo
//! becomes a drag, the undo history and the edits it records, the play-mode
//! state machine, the viewport's two cameras, what the scene tree and the path
//! bar show, which collision pairs a step reports as beginning and ending, the
//! warm-start impulse cache, and the layer rules that decide which colliders
//! may interact and which a query may find.

pub mod browser;
pub mod cache;
pub mod entity;
pub mod events;
pub mod gizmo;
pub mod hierarchy;
pub mod layers;
pub mod menu_bar;
pub mod narrow;
pub mod play;
pub mod scene;
pub mod sorted;
pub mod solver;
pub mod spawn;
pub mod sprite;
pub mod step;
pub mod tool;
pub mod undo;
pub mod view;
