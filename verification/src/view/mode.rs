//! What the viewport's two modes are called.

use vstd::prelude::*;

verus! {

/// Which camera the viewport shows the scene through.
#[derive(Debug, Clone, Copy, PartialEq, Eq, Structural)]
pub enum ViewMode {
    /// The editor's own camera.
    Scene,
    /// The scene's active camera, as a running game would frame it.
    Game,
}

/// What the toolbar calls `mode`.
pub open spec fn mode_label(mode: ViewMode) -> Seq<char> {
    match mode {
        ViewMode::Scene => "Scene"@,
        ViewMode::Game => "Game"@,
    }
}

/// The tooltip the toolbar shows for `mode`.
pub open spec fn mode_hint(mode: ViewMode) -> Seq<char> {
    match mode {
        ViewMode::Scene => "Scene — navigate the world with the editor camera"@,
        ViewMode::Game => "Game — see the world through the scene's active camera"@,
    }
}

impl Default for ViewMode {
    /// The viewport starts on the editor's camera.
    fn default() -> (mode: ViewMode)
        ensures
            mode == ViewMode::Scene,
    {
        ViewMode::Scene
    }
}

impl ViewMode {
    pub const ALL: [ViewMode; 2] = [ViewMode::Scene, ViewMode::Game];

    pub fn label(self) -> (label: &'static str)
        ensures
            label@ == mode_label(self),
    {
        match self {
            ViewMode::Scene => "Scene",
            ViewMode::Game => "Game",
        }
    }

    pub fn hint(self) -> (hint: &'static str)
        ensures
            hint@ == mode_hint(self),
    {
        match self {
            ViewMode::Scene => "Scene — navigate the world with the editor camera",
            ViewMode::Game => "Game — see the world through the scene's active camera",
        }
    }
}

} // verus!
