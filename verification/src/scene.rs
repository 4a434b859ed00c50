//! The scene as the undo history and play mode read it.
//!
//! An entity belongs to the scene when it carries a [`SceneId`]; everything
//! the history records about it is the serialized record of its components.
//! [`SceneRecords`] is that reading of a world: for each scene entity, in the
//! order the world stores them, its identity and either its record or the fact
//! that it could not be serialized.

use vstd::prelude::*;

use crate::sorted::Keyed;

verus! {

/// The identity an entity keeps across a despawn and respawn.
///
/// An `Entity` handle does not survive an undo that revives a deleted entity;
/// the scene id does, which is why every record is addressed by it.
#[derive(Debug, Clone, Copy, PartialEq, Eq, Hash, Structural)]
pub struct SceneId(pub u64);

impl Keyed for SceneId {
    open spec fn rank(&self) -> int {
        self.0 as int
    }

    fn precedes(&self, other: &Self) -> (before: bool) {
        self.0 < other.0
    }

    fn same_key(&self, other: &Self) -> (same: bool) {
        self.0 == other.0
    }

    proof fn lemma_rank_injective(a: Self, b: Self) {
    }
}

/// What capturing one id gives: `Ok(Some(record))` for an entity that
/// serialized, `Ok(None)` for an id no entity carries, `Err(())` for an entity
/// that could not be serialized.
pub type Capture = Result<Option<String>, ()>;

/// The view of a capture, with records as their text.
pub open spec fn capture_view(capture: Capture) -> Result<Option<Seq<char>>, ()> {
    match capture {
        Ok(Some(record)) => Ok(Some(record@)),
        Ok(None) => Ok(None),
        Err(()) => Err(()),
    }
}

/// The view of a record slot: `None` where the entity did not exist.
pub open spec fn record_view(record: Option<String>) -> Option<Seq<char>> {
    match record {
        Some(text) => Some(text@),
        None => None,
    }
}

/// What capturing an entity whose record is `record` gives.
pub open spec fn captured(record: Option<String>) -> Result<Option<Seq<char>>, ()> {
    Ok(record_view(record))
}

/// Every scene entity of a world, as the history can read it.
pub struct SceneRecords {
    /// Each scene entity's id and its serialized record, or `Err(())` where
    /// serializing it failed, in the order the world stores the entities.
    pub entries: Vec<(SceneId, Result<String, ()>)>,
}

/// What capturing `id` gives in a scene whose entries are `entries`: the first
/// entity carrying the id decides, and an id nothing carries did not exist.
pub open spec fn capture_in(entries: Seq<(SceneId, Result<String, ()>)>, id: SceneId) -> Result<
    Option<Seq<char>>,
    (),
>
    decreases entries.len(),
{
    if entries.len() == 0 {
        Ok(None)
    } else if entries[0].0 == id {
        match entries[0].1 {
            Ok(record) => Ok(Some(record@)),
            Err(()) => Err(()),
        }
    } else {
        capture_in(entries.drop_first(), id)
    }
}

impl SceneRecords {
    /// What capturing `id` gives in this scene.
    pub open spec fn capture_spec(&self, id: SceneId) -> Result<Option<Seq<char>>, ()> {
        capture_in(self.entries@, id)
    }

    /// A scene with no entity in it.
    pub fn new() -> (scene: SceneRecords)
        ensures
            scene.entries@.len() == 0,
    {
        SceneRecords { entries: Vec::new() }
    }

    /// The current record of `id`, or `Err(())` when it could not be
    /// serialized.
    pub fn capture(&self, id: SceneId) -> (capture: Capture)
        ensures
            capture_view(capture) == self.capture_spec(id),
    {
        let mut i: usize = 0;
        proof {
            assert(self.entries@.skip(0) =~= self.entries@);
        }
        while i < self.entries.len()
            invariant
                0 <= i <= self.entries@.len(),
                capture_in(self.entries@, id) == capture_in(self.entries@.skip(i as int), id),
            decreases self.entries@.len() - i,
        {
            proof {
                assert(self.entries@.skip(i as int).drop_first() =~= self.entries@.skip(
                    i + 1,
                ));
            }
            if self.entries[i].0 == id {
                return match &self.entries[i].1 {
                    Ok(record) => Ok(Some(record.clone())),
                    Err(()) => Err(()),
                };
            }
            i = i + 1;
        }
        Ok(None)
    }
}

} // verus!
