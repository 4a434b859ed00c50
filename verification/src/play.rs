//! Whether the editor is authoring the scene or simulating it.
//!
//! The state machine and the snapshot Stop puts back. Every rule about which
//! transition is legal lives here; the toolbar decides which button is on
//! screen and calls the method behind it, and the caller carries out what a
//! transition hands back on the running application: switching simulation on
//! and off, running a step, and restoring the snapshot.

use vstd::prelude::*;

use crate::scene::SceneId;

verus! {

/// Whether the editor is authoring the scene or simulating it.
#[derive(Debug, Clone, Copy, PartialEq, Eq, Structural)]
pub enum PlayState {
    Editing,
    Playing,
    Paused,
}

impl Default for PlayState {
    /// An editor starts out authoring.
    fn default() -> (state: PlayState)
        ensures
            state == PlayState::Editing,
    {
        PlayState::Editing
    }
}

/// The scene as it was when play began, and what Stop puts back.
#[derive(Debug)]
pub struct PlaySnapshot<S> {
    pub scene: S,
    /// Which entity was selected, by scene identity rather than by handle: the
    /// restore despawns and respawns, so every handle is stale after it.
    pub selected: Option<SceneId>,
}

/// The play state as the contracts read it.
pub struct PlayModel<S> {
    pub state: PlayState,
    pub snapshot: Option<PlaySnapshot<S>>,
}

/// What Play does: from `Editing` it takes the snapshot, or stays put when
/// none could be taken; from `Paused` it resumes and keeps the snapshot it
/// has; while playing it does nothing.
pub open spec fn played<S>(m: PlayModel<S>, snapshot: Result<PlaySnapshot<S>, ()>) -> PlayModel<S> {
    match m.state {
        PlayState::Playing => m,
        PlayState::Paused => PlayModel { state: PlayState::Playing, ..m },
        PlayState::Editing => match snapshot {
            Ok(taken) => PlayModel { state: PlayState::Playing, snapshot: Some(taken) },
            Err(()) => m,
        },
    }
}

/// What Pause does: only while playing, and the snapshot stays.
pub open spec fn paused<S>(m: PlayModel<S>) -> PlayModel<S> {
    if m.state == PlayState::Playing {
        PlayModel { state: PlayState::Paused, ..m }
    } else {
        m
    }
}

/// What Stop does: back to editing, the snapshot handed out to be restored.
pub open spec fn stopped<S>(m: PlayModel<S>) -> PlayModel<S> {
    PlayModel { state: PlayState::Editing, snapshot: None }
}

/// The editor's play state and the scene it will put back.
#[derive(Debug)]
pub struct Play<S> {
    state: PlayState,
    /// `Some` from the Play that left `Editing` until the Stop that consumes it.
    snapshot: Option<PlaySnapshot<S>>,
}

impl<S> View for Play<S> {
    type V = PlayModel<S>;

    closed spec fn view(&self) -> PlayModel<S> {
        PlayModel { state: self.state, snapshot: self.snapshot }
    }
}

/// The play state holds a snapshot exactly while it is not editing.
pub open spec fn snapshot_held<S>(m: PlayModel<S>) -> bool {
    (m.state == PlayState::Editing) == (m.snapshot is None)
}

impl<S> Play<S> {
    /// A snapshot is held exactly while the editor is not editing, so Stop
    /// always has something to put back.
    #[verifier::type_invariant]
    spec fn holds_its_snapshot(self) -> bool {
        snapshot_held(self@)
    }
}

impl<S> Default for Play<S> {
    /// Editing, with nothing to put back.
    fn default() -> (play: Play<S>)
        ensures
            play@.state == PlayState::Editing,
            play@.snapshot is None,
    {
        Play::new()
    }
}

impl<S> Play<S> {
    /// Editing, with nothing to put back.
    pub fn new() -> (play: Play<S>)
        ensures
            play@.state == PlayState::Editing,
            play@.snapshot is None,
    {
        Play { state: PlayState::Editing, snapshot: None }
    }

    /// Where the editor is; a snapshot is held exactly while it is not
    /// editing.
    pub fn state(&self) -> (state: PlayState)
        ensures
            state == self@.state,
            snapshot_held(self@),
    {
        proof {
            use_type_invariant(self);
        }
        self.state
    }

    /// Whether Play would take a snapshot: only when it leaves `Editing`.
    ///
    /// From `Paused` it must not, or the paused mid-air scene would become
    /// what Stop restores.
    pub fn wants_snapshot(&self) -> (wants: bool)
        ensures
            wants == (self@.state == PlayState::Editing),
    {
        self.state == PlayState::Editing
    }

    /// Enters `Playing`, keeping `snapshot` if this leaves `Editing`.
    ///
    /// `snapshot` is the scene as it is now, or `Err(())` when it could not be
    /// serialized; it is used only from `Editing`. A snapshot that could not
    /// be taken refuses the transition: entering play without a way back is
    /// the one outcome this mode exists to prevent. Returns whether simulation
    /// is to be switched on.
    pub fn play(&mut self, snapshot: Result<PlaySnapshot<S>, ()>) -> (simulate: bool)
        ensures
            final(self)@ == played(old(self)@, snapshot),
            snapshot_held(final(self)@),
            simulate == (old(self)@.state != PlayState::Playing && final(self)@.state
                == PlayState::Playing),
            old(self)@.state == PlayState::Paused ==> simulate && final(self)@.state
                == PlayState::Playing && final(self)@.snapshot == old(self)@.snapshot,
            old(self)@.state == PlayState::Editing ==> (simulate <==> snapshot is Ok),
    {
        proof {
            use_type_invariant(&*self);
        }
        match self.state {
            PlayState::Playing => false,
            PlayState::Paused => {
                self.state = PlayState::Playing;
                true
            },
            PlayState::Editing => match snapshot {
                Ok(taken) => {
                    *self = Play { state: PlayState::Playing, snapshot: Some(taken) };
                    true
                },
                Err(()) => false,
            },
        }
    }

    /// Stops stepping and leaves the scene exactly where it is. Returns
    /// whether simulation is to be switched off: only a playing editor pauses.
    pub fn pause(&mut self) -> (stop_simulating: bool)
        ensures
            final(self)@ == paused(old(self)@),
            snapshot_held(final(self)@),
            stop_simulating == (old(self)@.state == PlayState::Playing),
    {
        proof {
            use_type_invariant(&*self);
        }
        if self.state != PlayState::Playing {
            return false;
        }
        self.state = PlayState::Paused;
        true
    }

    /// How many fixed steps to run: exactly one while paused, and none
    /// anywhere else. Step outside play is not a stepper: there would be no
    /// snapshot to put back.
    pub fn step(&self) -> (steps: u32)
        ensures
            steps == (if self@.state == PlayState::Paused {
                1u32
            } else {
                0u32
            }),
    {
        if self.state != PlayState::Paused {
            return 0;
        }
        1
    }

    /// Leaves play and hands back the snapshot to restore, discarding
    /// everything play did; `None` while editing, where Stop does nothing.
    ///
    /// The caller switches simulation off before anything else, cancels any
    /// drag, despawns every scene entity, restores the snapshot, resets
    /// physics, re-resolves textures, and resolves the selection by identity.
    pub fn stop(&mut self) -> (restore: Option<PlaySnapshot<S>>)
        ensures
            old(self)@.state == PlayState::Editing ==> restore is None && final(self)@
                == old(self)@,
            old(self)@.state != PlayState::Editing ==> restore == old(self)@.snapshot
                && restore is Some && final(self)@ == stopped(old(self)@),
            snapshot_held(final(self)@),
    {
        proof {
            use_type_invariant(&*self);
        }
        if self.state == PlayState::Editing {
            return None;
        }
        let mut left = Play { state: PlayState::Editing, snapshot: None };
        std::mem::swap(&mut left, self);
        left.snapshot
    }
}

/// The play state after pressing Play and Pause in turn, oldest first: a
/// `Some` is a Play handed that snapshot (or the failure to take one), a
/// `None` is a Pause.
pub open spec fn pressed<S>(m: PlayModel<S>, presses: Seq<Option<Result<PlaySnapshot<S>, ()>>>) -> PlayModel<S>
    decreases presses.len(),
{
    if presses.len() == 0 {
        m
    } else {
        let before = pressed(m, presses.drop_last());
        match presses.last() {
            Some(snapshot) => played(before, snapshot),
            None => paused(before),
        }
    }
}

/// Once out of `Editing`, Play and Pause keep the editor out of it and never
/// touch the snapshot, whatever Play is handed.
pub proof fn lemma_play_and_pause_keep_the_snapshot<S>(
    m: PlayModel<S>,
    snapshot: Result<PlaySnapshot<S>, ()>,
)
    requires
        m.state != PlayState::Editing,
    ensures
        played(m, snapshot).state != PlayState::Editing,
        played(m, snapshot).snapshot == m.snapshot,
        paused(m).state != PlayState::Editing,
        paused(m).snapshot == m.snapshot,
{
}

/// Stop puts back the scene as it was when play began: after the Play that
/// left `Editing` with `first`, any run of Play and Pause presses leaves the
/// editor out of `Editing` holding `first`, and Stop (which hands back what
/// is held) returns to `Editing` with nothing left to put back.
pub proof fn lemma_stop_restores_the_first_snapshot<S>(
    m: PlayModel<S>,
    first: PlaySnapshot<S>,
    presses: Seq<Option<Result<PlaySnapshot<S>, ()>>>,
)
    requires
        m.state == PlayState::Editing,
    ensures
        pressed(played(m, Ok(first)), presses).state != PlayState::Editing,
        pressed(played(m, Ok(first)), presses).snapshot == Some(first),
        stopped(pressed(played(m, Ok(first)), presses)).state == PlayState::Editing,
        stopped(pressed(played(m, Ok(first)), presses)).snapshot is None,
    decreases presses.len(),
{
    if presses.len() > 0 {
        lemma_stop_restores_the_first_snapshot(m, first, presses.drop_last());
        let before = pressed(played(m, Ok(first)), presses.drop_last());
        match presses.last() {
            Some(snapshot) => lemma_play_and_pause_keep_the_snapshot(before, snapshot),
            None => lemma_play_and_pause_keep_the_snapshot(before, Ok(first)),
        }
    }
}

/// A snapshot that cannot be taken leaves the editor editing, with nothing
/// to put back.
pub proof fn lemma_failed_snapshot_keeps_editing<S>(m: PlayModel<S>)
    requires
        m.state == PlayState::Editing,
        snapshot_held(m),
    ensures
        played(m, Err(())).state == PlayState::Editing,
        played(m, Err(())).snapshot is None,
{
}

/// Every transition keeps the rule that a snapshot is held exactly while the
/// editor is not editing, so Stop always has something to put back.
pub proof fn lemma_snapshot_held_while_playing<S>(
    m: PlayModel<S>,
    snapshot: Result<PlaySnapshot<S>, ()>,
)
    requires
        snapshot_held(m),
    ensures
        snapshot_held(played(m, snapshot)),
        snapshot_held(paused(m)),
        snapshot_held(stopped(m)),
{
}

/// Play resumes a paused game, whatever it is handed, with the snapshot it
/// already holds; Pause stops a running one and keeps it; Play while playing
/// and Pause while not playing change nothing.
pub proof fn lemma_play_resumes_what_pause_stopped<S>(
    m: PlayModel<S>,
    snapshot: Result<PlaySnapshot<S>, ()>,
)
    ensures
        m.state == PlayState::Paused ==> played(m, snapshot).state == PlayState::Playing
            && played(m, snapshot).snapshot == m.snapshot,
        m.state == PlayState::Playing ==> paused(m).state == PlayState::Paused && paused(m).snapshot
            == m.snapshot,
        m.state == PlayState::Playing ==> played(m, snapshot) == m,
        m.state != PlayState::Playing ==> paused(m) == m,
        m.state == PlayState::Playing ==> played(paused(m), snapshot) == m,
{
}

} // verus!
