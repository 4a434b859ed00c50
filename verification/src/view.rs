//! Which camera the viewport image is rendered through.
//!
//! One viewport shows two pictures of one scene: a navigable editor view, and
//! the game as its own camera frames it. The switch is manual and Play does
//! not touch it.

pub mod mode;

use vstd::prelude::*;

pub use mode::ViewMode;

verus! {

/// The view as the contracts read it.
pub struct ViewModel<C> {
    pub mode: ViewMode,
    pub parked: Option<C>,
}

/// The mode, and the editor camera parked while the game camera has the frame.
///
/// Parked rather than recomputed: an editor camera is somewhere the user put
/// it by panning and zooming, and losing that on a round trip through the game
/// view would make the toggle expensive to press.
#[derive(Debug)]
pub struct View<C> {
    mode: ViewMode,
    parked: Option<C>,
}

impl<C> View<C> {
    /// The view as the contracts read it.
    pub closed spec fn model(&self) -> ViewModel<C> {
        ViewModel { mode: self.mode, parked: self.parked }
    }
}

/// What switching to `mode` does: nothing when it is already in effect;
/// otherwise the new mode, the editor camera parked on the way to the game
/// view and handed back on the way out of it.
pub open spec fn switched<C>(m: ViewModel<C>, mode: ViewMode, camera: C) -> (ViewModel<C>, Option<C>) {
    if mode == m.mode {
        (m, None)
    } else {
        match mode {
            ViewMode::Game => (ViewModel { mode, parked: Some(camera) }, None),
            ViewMode::Scene => (ViewModel { mode, parked: None }, m.parked),
        }
    }
}

impl<C: Copy> Default for View<C> {
    /// The scene view, nothing parked.
    fn default() -> (view: View<C>)
        ensures
            view.model().mode == ViewMode::Scene,
            view.model().parked is None,
    {
        View::new()
    }
}

impl<C: Copy> View<C> {
    /// The scene view, nothing parked.
    pub fn new() -> (view: View<C>)
        ensures
            view.model().mode == ViewMode::Scene,
            view.model().parked is None,
    {
        View { mode: ViewMode::Scene, parked: None }
    }

    pub fn mode(&self) -> (mode: ViewMode)
        ensures
            mode == self.model().mode,
    {
        self.mode
    }

    pub fn is_game(&self) -> (game: bool)
        ensures
            game == (self.model().mode == ViewMode::Game),
    {
        self.mode == ViewMode::Game
    }

    /// Switches mode, parking or handing back the editor camera.
    ///
    /// `camera` is the editor camera as it is now. Returns the camera to put
    /// back on the way out of the game view — its position and zoom, not its
    /// aspect, which belongs to the target the frame is drawn into. Setting
    /// the mode already in effect parks nothing, so two clicks on the same
    /// button cannot overwrite the parked camera with the game one.
    pub fn set_mode(&mut self, mode: ViewMode, camera: C) -> (restore: Option<C>)
        ensures
            (final(self).model(), restore) == switched(old(self).model(), mode, camera),
    {
        if mode == self.mode {
            return None;
        }
        self.mode = mode;
        match mode {
            ViewMode::Game => {
                self.parked = Some(camera);
                None
            },
            ViewMode::Scene => self.parked.take(),
        }
    }
}

/// Going to the game view and back hands back the editor camera exactly as it
/// was when the game view was entered, whatever was clicked in between.
pub proof fn lemma_game_round_trip_restores_the_camera<C>(
    m: ViewModel<C>,
    editor: C,
    other: C,
    later: C,
)
    requires
        m.mode == ViewMode::Scene,
    ensures
        switched(switched(m, ViewMode::Game, editor).0, ViewMode::Scene, later).1 == Some(editor),
        switched(
            switched(switched(m, ViewMode::Game, editor).0, ViewMode::Game, other).0,
            ViewMode::Scene,
            later,
        ).1 == Some(editor),
{
}

} // verus!
