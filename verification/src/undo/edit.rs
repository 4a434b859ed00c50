//! One undoable entry, and what putting either of its sides back takes.
//!
//! An entry is a set of per-entity records with an `Option` on each side, which
//! is what lets one type describe a modification, a spawn, a delete and a
//! scene-wide clear with no code per action:
//!
//! | Action | `before` | `after` |
//! | --- | --- | --- |
//! | Move, edit a field | `Some` | `Some` |
//! | Spawn | `None` | `Some` |
//! | Delete, Clear | `Some` | `None` |
//!
//! Entities are addressed by [`SceneId`] and never by `Entity`: an undone
//! delete has to revive the entity the rest of the stack still refers to.

use vstd::prelude::*;

use crate::scene::{record_view, SceneId};

verus! {

/// Which side of an edit to put back.
#[derive(Debug, Clone, Copy, PartialEq, Eq, Structural)]
pub enum Side {
    Before,
    After,
}

/// One entity's state on both sides of an edit.
///
/// `None` means the entity did not exist on that side.
#[derive(Debug)]
pub struct EntityChange {
    pub id: SceneId,
    pub before: Option<String>,
    pub after: Option<String>,
}

impl EntityChange {
    /// The record on `side`.
    pub open spec fn side_spec(&self, side: Side) -> Option<String> {
        match side {
            Side::Before => self.before,
            Side::After => self.after,
        }
    }

    /// The record on `side`, `None` where the entity did not exist there.
    pub fn side(&self, side: Side) -> (record: &Option<String>)
        ensures
            *record == self.side_spec(side),
    {
        match side {
            Side::Before => &self.before,
            Side::After => &self.after,
        }
    }
}

/// One thing to do to the world when a side of an edit is put back.
#[derive(Debug)]
pub enum ApplyStep {
    /// Write this record back into the scene, reviving the entity with this
    /// id if no entity carries it.
    Write(SceneId, String),
    /// Despawn the entity carrying this id, if one does: it did not exist on
    /// the side being put back.
    Despawn(SceneId),
}

/// Whether `step` is what putting `side` of `change` back takes.
pub open spec fn step_for(step: ApplyStep, change: EntityChange, side: Side) -> bool {
    match change.side_spec(side) {
        Some(record) => step matches ApplyStep::Write(id, text) && id == change.id && text@
            == record@,
        None => step == ApplyStep::Despawn(change.id),
    }
}

/// Whether `steps` put `side` of `changes` back, one step per change, in order.
pub open spec fn steps_for(steps: Seq<ApplyStep>, changes: Seq<EntityChange>, side: Side) -> bool {
    &&& steps.len() == changes.len()
    &&& forall|i: int| 0 <= i < changes.len() ==> step_for(#[trigger] steps[i], changes[i], side)
}

/// Whether `changes` name each entity once, in identity order.
pub open spec fn ordered_changes(changes: Seq<EntityChange>) -> bool {
    forall|i: int, j: int| 0 <= i < j < changes.len() ==> changes[i].id.0 < changes[j].id.0
}

/// Whether `after` holds at `id` exactly what `before` did.
pub open spec fn left_alone(
    before: Map<SceneId, Option<Seq<char>>>,
    after: Map<SceneId, Option<Seq<char>>>,
    id: SceneId,
) -> bool {
    &&& after.dom().contains(id) == before.dom().contains(id)
    &&& before.dom().contains(id) ==> after[id] == before[id]
}

/// Whether some change of `changes` is for `id`.
pub open spec fn names(changes: Seq<EntityChange>, id: SceneId) -> bool {
    exists|i: int| 0 <= i < changes.len() && changes[i].id == id
}

/// What each scene id holds once `steps` have been carried out on a scene
/// where each id held what `scene` says: a write leaves its id holding the
/// record, a despawn leaves it holding nothing.
pub open spec fn written(
    scene: Map<SceneId, Option<Seq<char>>>,
    steps: Seq<ApplyStep>,
) -> Map<SceneId, Option<Seq<char>>>
    decreases steps.len(),
{
    if steps.len() == 0 {
        scene
    } else {
        let rest = written(scene, steps.drop_last());
        match steps.last() {
            ApplyStep::Write(id, text) => rest.insert(id, Some(text@)),
            ApplyStep::Despawn(id) => rest.insert(id, None),
        }
    }
}

/// Carrying out the steps that put `side` of an entry back leaves every id
/// the entry names holding its record on that side, and every other id as it
/// was.
pub proof fn lemma_steps_put_the_side_back(
    scene: Map<SceneId, Option<Seq<char>>>,
    steps: Seq<ApplyStep>,
    changes: Seq<EntityChange>,
    side: Side,
)
    requires
        steps_for(steps, changes, side),
        ordered_changes(changes),
    ensures
        forall|i: int|
            0 <= i < changes.len() ==> #[trigger] written(scene, steps).dom().contains(
                changes[i].id,
            ) && written(scene, steps)[changes[i].id] == record_view(changes[i].side_spec(side)),
        forall|id: SceneId|
            !names(changes, id) ==> #[trigger] left_alone(scene, written(scene, steps), id),
    decreases steps.len(),
{
    if steps.len() > 0 {
        let n = steps.len() - 1;
        let fewer = steps.drop_last();
        let first = changes.drop_last();
        assert(steps_for(fewer, first, side)) by {
            assert forall|i: int| 0 <= i < first.len() implies step_for(
                #[trigger] fewer[i],
                first[i],
                side,
            ) by {
                assert(step_for(steps[i], changes[i], side));
            }
        }
        lemma_steps_put_the_side_back(scene, fewer, first, side);
        assert(step_for(steps[n], changes[n], side));
        assert forall|i: int| 0 <= i < changes.len() implies #[trigger] written(
            scene,
            steps,
        ).dom().contains(changes[i].id) && written(scene, steps)[changes[i].id] == record_view(
            changes[i].side_spec(side),
        ) by {
            if i < n {
                assert(first[i] == changes[i]);
                assert(changes[i].id.0 < changes[n].id.0);
            }
        }
        assert forall|id: SceneId|
            !names(changes, id) implies #[trigger] left_alone(scene, written(scene, steps), id) by {
            assert(changes[n].id != id);
            assert(!names(first, id)) by {
                if names(first, id) {
                    let i = choose|i: int| 0 <= i < first.len() && first[i].id == id;
                    assert(changes[i].id == id);
                }
            }
            let rest = written(scene, fewer);
            assert(left_alone(scene, rest, id));
            match steps[n] {
                ApplyStep::Write(k, text) => {
                    assert(k == changes[n].id);
                    assert(written(scene, steps) == rest.insert(k, Some(text@)));
                },
                ApplyStep::Despawn(k) => {
                    assert(k == changes[n].id);
                    assert(written(scene, steps) == rest.insert(k, None));
                },
            }
        }
    } else {
        assert(written(scene, steps) == scene);
    }
}

/// Carrying out a list of steps lays what they write over the scene: each id
/// a step names ends with what the last such step wrote, every other id as it
/// was.
proof fn lemma_written_overlays_the_scene(
    scene: Map<SceneId, Option<Seq<char>>>,
    steps: Seq<ApplyStep>,
)
    ensures
        written(scene, steps) == scene.union_prefer_right(written(Map::empty(), steps)),
    decreases steps.len(),
{
    if steps.len() == 0 {
        assert(scene.union_prefer_right(Map::<SceneId, Option<Seq<char>>>::empty()) =~= scene);
    } else {
        lemma_written_overlays_the_scene(scene, steps.drop_last());
        let rest = written(Map::<SceneId, Option<Seq<char>>>::empty(), steps.drop_last());
        match steps.last() {
            ApplyStep::Write(id, text) => {
                assert(scene.union_prefer_right(rest).insert(id, Some(text@))
                    =~= scene.union_prefer_right(rest.insert(id, Some(text@))));
            },
            ApplyStep::Despawn(id) => {
                assert(scene.union_prefer_right(rest).insert(id, None)
                    =~= scene.union_prefer_right(rest.insert(id, None)));
            },
        }
    }
}

/// Carrying out the same steps twice leaves the scene as carrying them out
/// once did: putting a side of an entry back a second time changes nothing,
/// so undo is not a toggle, and a second press does not revive a second copy
/// of what the first revived.
pub proof fn lemma_putting_a_side_back_twice_is_once(
    scene: Map<SceneId, Option<Seq<char>>>,
    steps: Seq<ApplyStep>,
)
    ensures
        written(written(scene, steps), steps) == written(scene, steps),
{
    let once = written(scene, steps);
    let writes = written(Map::<SceneId, Option<Seq<char>>>::empty(), steps);
    lemma_written_overlays_the_scene(scene, steps);
    lemma_written_overlays_the_scene(once, steps);
    assert(once.union_prefer_right(writes) =~= once);
}

/// Undoing an entry and then redoing it puts back the scene the entry was
/// recorded against: every id it names holds its `after` record again, and
/// every other id was never touched.
pub proof fn lemma_undo_then_redo_restores_the_scene(
    scene: Map<SceneId, Option<Seq<char>>>,
    undo: Seq<ApplyStep>,
    redo: Seq<ApplyStep>,
    changes: Seq<EntityChange>,
)
    requires
        ordered_changes(changes),
        steps_for(undo, changes, Side::Before),
        steps_for(redo, changes, Side::After),
        forall|i: int|
            0 <= i < changes.len() ==> scene.dom().contains(#[trigger] changes[i].id) && scene[changes[i].id]
                == record_view(changes[i].after),
    ensures
        written(written(scene, undo), redo) == scene,
{
    let undone = written(scene, undo);
    let redone = written(undone, redo);
    lemma_steps_put_the_side_back(scene, undo, changes, Side::Before);
    lemma_steps_put_the_side_back(undone, redo, changes, Side::After);
    assert forall|id: SceneId| #[trigger] redone.dom().contains(id) == scene.dom().contains(id) && (
    scene.dom().contains(id) ==> redone[id] == scene[id]) by {
        if names(changes, id) {
            let i = choose|i: int| 0 <= i < changes.len() && changes[i].id == id;
            assert(written(undone, redo).dom().contains(changes[i].id));
            assert(scene.dom().contains(changes[i].id));
        } else {
            assert(left_alone(scene, undone, id));
            assert(left_alone(undone, redone, id));
        }
    }
    assert(redone =~= scene);
}

/// Redoing an entry and then undoing it puts back the scene the redo started
/// from: every id the entry names holds its `before` record again, and every
/// other id was never touched.
pub proof fn lemma_redo_then_undo_restores_the_scene(
    scene: Map<SceneId, Option<Seq<char>>>,
    redo: Seq<ApplyStep>,
    undo: Seq<ApplyStep>,
    changes: Seq<EntityChange>,
)
    requires
        ordered_changes(changes),
        steps_for(redo, changes, Side::After),
        steps_for(undo, changes, Side::Before),
        forall|i: int|
            0 <= i < changes.len() ==> scene.dom().contains(#[trigger] changes[i].id) && scene[changes[i].id]
                == record_view(changes[i].before),
    ensures
        written(written(scene, redo), undo) == scene,
{
    let redone = written(scene, redo);
    let undone = written(redone, undo);
    lemma_steps_put_the_side_back(scene, redo, changes, Side::After);
    lemma_steps_put_the_side_back(redone, undo, changes, Side::Before);
    assert forall|id: SceneId| #[trigger] undone.dom().contains(id) == scene.dom().contains(id) && (
    scene.dom().contains(id) ==> undone[id] == scene[id]) by {
        if names(changes, id) {
            let i = choose|i: int| 0 <= i < changes.len() && changes[i].id == id;
            assert(written(redone, undo).dom().contains(changes[i].id));
            assert(scene.dom().contains(changes[i].id));
        } else {
            assert(left_alone(scene, redone, id));
            assert(left_alone(redone, undone, id));
        }
    }
    assert(undone =~= scene);
}

/// One entry in the history.
#[derive(Debug)]
pub struct Edit {
    /// What the Edit menu calls it.
    pub label: &'static str,
    pub entities: Vec<EntityChange>,
    pub selected_before: Option<SceneId>,
    pub selected_after: Option<SceneId>,
}

impl Edit {
    /// Whether both sides describe the same scene.
    pub open spec fn is_noop_spec(&self) -> bool {
        forall|i: int|
            0 <= i < self.entities@.len() ==> record_view(#[trigger] self.entities@[i].before)
                == record_view(self.entities@[i].after)
    }

    /// What was selected on `side`.
    pub open spec fn selection_spec(&self, side: Side) -> Option<SceneId> {
        match side {
            Side::Before => self.selected_before,
            Side::After => self.selected_after,
        }
    }

    /// Whether the two sides describe the same scene.
    ///
    /// A grab that pressed a handle and released without moving, a text field
    /// clicked into and out of: both produce an edit, and neither is one.
    pub fn is_noop(&self) -> (noop: bool)
        ensures
            noop == self.is_noop_spec(),
    {
        let mut i: usize = 0;
        while i < self.entities.len()
            invariant
                0 <= i <= self.entities@.len(),
                forall|j: int|
                    0 <= j < i ==> record_view(#[trigger] self.entities@[j].before) == record_view(
                        self.entities@[j].after,
                    ),
            decreases self.entities@.len() - i,
        {
            if !same_record(&self.entities[i].before, &self.entities[i].after) {
                return false;
            }
            i = i + 1;
        }
        true
    }

    /// What was selected on `side`.
    pub fn selection(&self, side: Side) -> (selected: Option<SceneId>)
        ensures
            selected == self.selection_spec(side),
    {
        match side {
            Side::Before => self.selected_before,
            Side::After => self.selected_after,
        }
    }

    /// What putting `side` back takes, one step per entity in the entry.
    ///
    /// Every step is to be carried out even after one fails: stopping at the
    /// first would leave the scene half on one side of the edit and half on the
    /// other. An entity absent on `side` is despawned, and one that is already
    /// gone is what applying the same side twice looks like, not a failure.
    pub fn steps(&self, side: Side) -> (steps: Vec<ApplyStep>)
        ensures
            steps_for(steps@, self.entities@, side),
    {
        let mut steps: Vec<ApplyStep> = Vec::new();
        let mut i: usize = 0;
        while i < self.entities.len()
            invariant
                0 <= i <= self.entities@.len(),
                steps@.len() == i,
                forall|j: int|
                    0 <= j < i ==> step_for(#[trigger] steps@[j], self.entities@[j], side),
            decreases self.entities@.len() - i,
        {
            let change = &self.entities[i];
            match change.side(side) {
                Some(record) => steps.push(ApplyStep::Write(change.id, record.clone())),
                None => steps.push(ApplyStep::Despawn(change.id)),
            }
            i = i + 1;
        }
        steps
    }
}

/// Whether two record slots hold the same record, or are both empty.
pub fn same_record(a: &Option<String>, b: &Option<String>) -> (same: bool)
    ensures
        same == (record_view(*a) == record_view(*b)),
{
    match (a, b) {
        (Some(x), Some(y)) => *x == *y,
        (None, None) => true,
        _ => false,
    }
}

} // verus!
