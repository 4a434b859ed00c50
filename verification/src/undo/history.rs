//! The two stacks, the edit being built, and the cap on how far back it goes.

use vstd::prelude::*;

use super::edit::{
    left_alone, lemma_steps_put_the_side_back, names, ordered_changes, same_record, steps_for,
    written, ApplyStep, Edit, EntityChange, Side,
};
use crate::sorted::{has_key, insert, lemma_to_map, or_insert, sorted_keys, to_map};
use super::{Restore, SceneView};
use crate::scene::{captured, record_view, SceneId, SceneRecords};

verus! {

/// How many entries the history keeps before it drops the oldest.
pub const MAX_EDITS: usize = 128;

/// The edit being built, and what it was called by whoever claimed it.
#[derive(Debug)]
pub struct OpenEdit {
    pub label: &'static str,
    /// Each id's record when the edit opened, in identity order.
    pub before: Vec<(SceneId, Option<String>)>,
    pub selected_before: Option<SceneId>,
    /// Set by an explicit [`History::begin`]. An explicit edit closes when its
    /// caller says so, not when the watcher stops seeing changes.
    pub explicit: bool,
}

/// An edit being built, as the contracts read it.
pub struct OpenModel {
    pub label: &'static str,
    /// Each id's record when the edit opened; `None` where it did not exist.
    pub before: Map<SceneId, Option<String>>,
    pub selected_before: Option<SceneId>,
    pub explicit: bool,
}

impl OpenEdit {
    pub open spec fn model(&self) -> OpenModel {
        OpenModel {
            label: self.label,
            before: to_map(self.before@),
            selected_before: self.selected_before,
            explicit: self.explicit,
        }
    }
}

/// The history, as the contracts read it.
pub struct HistoryModel {
    /// What can be undone, oldest first.
    pub done: Seq<Edit>,
    /// What can be redone, the next redo last.
    pub undone: Seq<Edit>,
    /// The edit being built, if one is.
    pub open: Option<OpenModel>,
    /// What the watched ids looked like when this frame started.
    pub watched: Map<SceneId, Option<String>>,
    /// What was selected when this frame started.
    pub watched_selected: Option<SceneId>,
    /// What a claim this frame called the interaction.
    pub claim: Option<&'static str>,
    /// Whether an explicit edit or an undo or redo already recorded this
    /// frame's change.
    pub recorded: bool,
}

/// The history with both stacks, the open edit and the watched records gone.
pub open spec fn cleared(m: HistoryModel) -> HistoryModel {
    HistoryModel {
        done: Seq::empty(),
        undone: Seq::empty(),
        open: None,
        watched: Map::empty(),
        ..m
    }
}

/// Whether capturing `id` fails: its entity could not be serialized.
pub open spec fn capture_fails(scene: SceneRecords, id: SceneId) -> bool {
    scene.capture_spec(id) matches Err(_)
}

/// Whether capturing any of `ids` fails.
pub open spec fn any_capture_fails(scene: SceneRecords, ids: Seq<SceneId>) -> bool {
    exists|j: int| 0 <= j < ids.len() && capture_fails(scene, #[trigger] ids[j])
}

/// Whether `records` holds exactly `ids`, each with its current record.
pub open spec fn captures_of(
    scene: SceneRecords,
    ids: Seq<SceneId>,
    records: Map<SceneId, Option<String>>,
) -> bool {
    &&& forall|id: SceneId| #[trigger] records.dom().contains(id) <==> ids.contains(id)
    &&& forall|id: SceneId|
        #[trigger] records.dom().contains(id) ==> scene.capture_spec(id) == captured(records[id])
}

/// Whether any id of `before` fails to capture.
pub open spec fn any_fails_in(scene: SceneRecords, before: Map<SceneId, Option<String>>) -> bool {
    exists|id: SceneId| #[trigger] before.dom().contains(id) && capture_fails(scene, id)
}

/// Whether every id of `before` still holds the record it had then.
pub open spec fn unchanged_since(scene: SceneRecords, before: Map<SceneId, Option<String>>) -> bool {
    forall|id: SceneId|
        #[trigger] before.dom().contains(id) ==> scene.capture_spec(id) == captured(before[id])
}

/// Whether `e` is the entry that closing `open` against `scene` records: one
/// change per id of the open edit, in identity order, each with the record it
/// had when the edit opened and the one it has now.
pub open spec fn records_edit(
    e: Edit,
    open: OpenModel,
    scene: SceneRecords,
    selected_after: Option<SceneId>,
) -> bool {
    &&& e.label == open.label
    &&& e.selected_before == open.selected_before
    &&& e.selected_after == selected_after
    &&& forall|i: int, j: int|
        0 <= i < j < e.entities@.len() ==> e.entities@[i].id.0 < e.entities@[j].id.0
    &&& forall|id: SceneId|
        #[trigger] open.before.dom().contains(id) <==> exists|i: int|
            0 <= i < e.entities@.len() && e.entities@[i].id == id
    &&& forall|i: int|
        0 <= i < e.entities@.len() ==> {
            let change = #[trigger] e.entities@[i];
            &&& open.before.dom().contains(change.id)
            &&& open.before[change.id] == change.before
            &&& scene.capture_spec(change.id) == captured(change.after)
        }
}

/// `done` with its oldest entry dropped once it holds more than the cap.
pub open spec fn trimmed(done: Seq<Edit>) -> Seq<Edit> {
    if done.len() > MAX_EDITS {
        done.drop_first()
    } else {
        done
    }
}

/// Whether closing `open` took the history from `pre` to `post`.
///
/// A record that cannot be captured clears the history: dropping just this
/// entry would leave a stack that lies about what the next undo restores. An
/// edit that changed nothing is not an entry. Anything else is pushed, clears
/// the redo stack, and drops the oldest entry past the cap.
pub open spec fn pushed(
    pre: HistoryModel,
    post: HistoryModel,
    open: OpenModel,
    scene: SceneRecords,
    selected_after: Option<SceneId>,
) -> bool {
    if any_fails_in(scene, open.before) {
        post == cleared(pre)
    } else if unchanged_since(scene, open.before) {
        post == pre
    } else {
        &&& post == HistoryModel { done: post.done, undone: Seq::empty(), ..pre }
        &&& exists|e: Edit|
            records_edit(e, open, scene, selected_after) && post.done == trimmed(pre.done.push(e))
    }
}

/// What a frame with no explicit edit calls the change it saw.
pub open spec fn label_or_edit(claim: Option<&'static str>) -> &'static str {
    match claim {
        Some(label) => label,
        None => "Edit",
    }
}

/// Whether a watched id holds a different record now than when the frame
/// started. An id that fails to capture has not visibly changed.
pub open spec fn watched_changed(scene: SceneRecords, watched: Map<SceneId, Option<String>>) -> bool {
    exists|id: SceneId|
        #[trigger] watched.dom().contains(id) && (scene.capture_spec(id) matches Ok(now) && now
            != record_view(watched[id]))
}

/// The open edit once this frame's watched changes are folded into it.
///
/// With nothing open, the watched records become the `before` side of a new
/// edit named by the claim. With an edit open, an id it already holds keeps
/// its older record: that is the oldest state the history ever saw it in.
pub open spec fn folded(m: HistoryModel, claim: Option<&'static str>) -> OpenModel {
    match m.open {
        None => OpenModel {
            label: label_or_edit(claim),
            before: m.watched,
            selected_before: m.watched_selected,
            explicit: false,
        },
        Some(open) => OpenModel { before: m.watched.union_prefer_right(open.before), ..open },
    }
}

/// Whether ending a frame took the history from `pre` to `post`.
///
/// The claim is consumed. A frame whose change an explicit edit or an undo
/// already recorded records nothing more. Otherwise a change to a watched id
/// is folded into the open edit, and the open edit is closed unless it is
/// explicit or a claim says the interaction is still going.
pub open spec fn ended_frame(
    pre: HistoryModel,
    post: HistoryModel,
    scene: SceneRecords,
    selected: Option<SceneId>,
) -> bool {
    let claim = pre.claim;
    let base = HistoryModel { claim: None, recorded: false, ..pre };
    if pre.recorded {
        post == base
    } else if watched_changed(scene, pre.watched) {
        let open = folded(pre, claim);
        if open.explicit || claim is Some {
            post == HistoryModel { open: Some(open), watched: Map::empty(), ..base }
        } else {
            pushed(HistoryModel { open: None, watched: Map::empty(), ..base }, post, open, scene, selected)
        }
    } else {
        match pre.open {
            None => post == base,
            Some(open) => if open.explicit || claim is Some {
                post == base
            } else {
                pushed(HistoryModel { open: None, ..base }, post, open, scene, selected)
            },
        }
    }
}

/// The history once its newest entry has been undone.
pub open spec fn undone_model(m: HistoryModel) -> HistoryModel {
    HistoryModel {
        done: m.done.drop_last(),
        undone: m.undone.push(m.done.last()),
        recorded: true,
        ..m
    }
}

/// The history once the entry the last undo put back has been redone.
pub open spec fn redone_model(m: HistoryModel) -> HistoryModel {
    HistoryModel {
        done: m.done.push(m.undone.last()),
        undone: m.undone.drop_last(),
        recorded: true,
        ..m
    }
}

/// Every map the open edit is extended with by a commit: ids that appeared
/// while it was open are recorded as not having existed before it.
pub open spec fn with_absent(before: Map<SceneId, Option<String>>, ids: Seq<SceneId>) -> Map<
    SceneId,
    Option<String>,
> {
    Map::new(
        |id: SceneId| before.dom().contains(id) || ids.contains(id),
        |id: SceneId|
            if before.dom().contains(id) {
                before[id]
            } else {
                None
            },
    )
}

/// Adds every entry of `source` whose id `target` lacks; an id `target`
/// already holds keeps its value there.
fn merge(target: &mut Vec<(SceneId, Option<String>)>, source: Vec<(SceneId, Option<String>)>)
    requires
        sorted_keys(old(target)@),
        sorted_keys(source@),
    ensures
        sorted_keys(final(target)@),
        to_map(final(target)@) == to_map(source@).union_prefer_right(to_map(old(target)@)),
{
    let ghost all = source@;
    let ghost base = to_map(old(target)@);
    let mut source = source;
    let ghost mut k: int = 0;
    proof {
        assert(all.take(0) =~= Seq::<(SceneId, Option<String>)>::empty());
        assert(to_map(all.take(0)).union_prefer_right(base) =~= base);
    }
    while source.len() > 0
        invariant
            0 <= k <= all.len(),
            source@ == all.skip(k),
            sorted_keys(all),
            sorted_keys(target@),
            to_map(target@) == to_map(all.take(k)).union_prefer_right(base),
        decreases source@.len(),
    {
        let (id, value) = source.remove(0);
        let ghost previous = target@;
        proof {
            assert(all.skip(k)[0] == all[k]);
            assert(all.skip(k).drop_first() =~= all.skip(k + 1));
            assert(all.take(k + 1).drop_last() =~= all.take(k));
            assert(all.take(k + 1).last() == all[k]);
            lemma_to_map(previous);
            lemma_to_map(all.take(k));
            if to_map(all.take(k)).dom().contains(id) {
                let j = choose|j: int| 0 <= j < all.take(k).len() && all.take(k)[j].0 == id;
                assert(all[j].0.0 < all[k].0.0);
            }
        }
        or_insert(target, id, value);
        proof {
            k = k + 1;
            let now = to_map(all.take(k)).union_prefer_right(base);
            if has_key(previous, id) {
                assert(to_map(previous).dom().contains(id));
                assert(now =~= to_map(previous));
            } else {
                assert(!to_map(previous).dom().contains(id));
                assert(now =~= to_map(previous).insert(id, value));
            }
        }
    }
    proof {
        assert(all.take(all.len() as int) =~= all);
    }
}

/// Everything that can be undone, and everything that has been.
#[derive(Debug)]
pub struct History {
    done: Vec<Edit>,
    undone: Vec<Edit>,
    open: Option<OpenEdit>,
    /// What the ids being watched looked like when this frame started.
    watched: Vec<(SceneId, Option<String>)>,
    watched_selected: Option<SceneId>,
    /// What a claim this frame called the interaction.
    claim: Option<&'static str>,
    /// Set by an explicit edit or by an apply, so [`History::end_frame`] does
    /// not record the same change a second time.
    recorded_this_frame: bool,
}

impl View for History {
    type V = HistoryModel;

    closed spec fn view(&self) -> HistoryModel {
        HistoryModel {
            done: self.done@,
            undone: self.undone@,
            open: match self.open {
                Some(open) => Some(open.model()),
                None => None,
            },
            watched: to_map(self.watched@),
            watched_selected: self.watched_selected,
            claim: self.claim,
            recorded: self.recorded_this_frame,
        }
    }
}

impl Default for History {
    /// An empty history, watching nothing.
    fn default() -> (history: History)
        ensures
            history@.done.len() == 0,
            history@.undone.len() == 0,
            history@.open is None,
            history@.watched.dom().is_empty(),
            history@.watched_selected is None,
            history@.claim is None,
            !history@.recorded,
    {
        History::new()
    }
}

impl History {
    /// The record sides are in identity order, every entry names each entity
    /// once, in identity order, and the two stacks together hold no more than
    /// the cap.
    #[verifier::type_invariant]
    spec fn well_formed(self) -> bool {
        &&& sorted_keys(self.watched@)
        &&& (self.open matches Some(open) ==> sorted_keys(open.before@))
        &&& self.done@.len() + self.undone@.len() <= MAX_EDITS
        &&& forall|i: int| 0 <= i < self.done@.len() ==> ordered_changes(#[trigger] self.done@[i].entities@)
        &&& forall|i: int| 0 <= i < self.undone@.len() ==> ordered_changes(#[trigger] self.undone@[i].entities@)
    }

    /// An empty history, watching nothing.
    pub fn new() -> (history: History)
        ensures
            history@.done.len() == 0,
            history@.undone.len() == 0,
            history@.open is None,
            history@.watched.dom().is_empty(),
            history@.watched_selected is None,
            history@.claim is None,
            !history@.recorded,
    {
        let history = History {
            done: Vec::new(),
            undone: Vec::new(),
            open: None,
            watched: Vec::new(),
            watched_selected: None,
            claim: None,
            recorded_this_frame: false,
        };
        proof {
            assert(to_map(history.watched@) =~= Map::empty());
        }
        history
    }

    /// Captures each of `ids`, in identity order, or says which one failed.
    fn capture_all(scene: &SceneRecords, ids: &[SceneId]) -> (records: Option<
        Vec<(SceneId, Option<String>)>,
    >)
        ensures
            records is None <==> any_capture_fails(*scene, ids@),
            records matches Some(r) ==> sorted_keys(r@) && captures_of(*scene, ids@, to_map(r@)),
    {
        let mut records: Vec<(SceneId, Option<String>)> = Vec::new();
        let mut i: usize = 0;
        proof {
            assert(to_map(records@) =~= Map::empty());
        }
        while i < ids.len()
            invariant
                0 <= i <= ids@.len(),
                sorted_keys(records@),
                forall|j: int| 0 <= j < i ==> !capture_fails(*scene, #[trigger] ids@[j]),
                forall|id: SceneId|
                    #[trigger] to_map(records@).dom().contains(id) <==> ids@.subrange(
                        0,
                        i as int,
                    ).contains(id),
                forall|id: SceneId|
                    #[trigger] to_map(records@).dom().contains(id) ==> scene.capture_spec(id)
                        == captured(to_map(records@)[id]),
            decreases ids@.len() - i,
        {
            let id = ids[i];
            match scene.capture(id) {
                Ok(record) => {
                    let ghost previous = records@;
                    insert(&mut records, id, record);
                    proof {
                        let seen = ids@.subrange(0, i as int);
                        let next = ids@.subrange(0, i + 1);
                        assert(next =~= seen.push(id));
                        assert forall|k: SceneId| #[trigger]
                            to_map(records@).dom().contains(k) <==> next.contains(k) by {
                            if seen.contains(k) {
                                let j = choose|j: int| 0 <= j < seen.len() && seen[j] == k;
                                assert(next[j] == k);
                            }
                            if next.contains(k) && k != id {
                                let j = choose|j: int| 0 <= j < next.len() && next[j] == k;
                                assert(seen[j] == k);
                            }
                            assert(next[i as int] == id);
                        }
                    }
                },
                Err(()) => {
                    proof {
                        assert(capture_fails(*scene, ids@[i as int]));
                    }
                    return None;
                },
            }
            i = i + 1;
        }
        proof {
            assert(ids@.subrange(0, ids@.len() as int) =~= ids@);
            assert forall|j: int| 0 <= j < ids@.len() implies !capture_fails(
                *scene,
                #[trigger] ids@[j],
            ) by {}
        }
        Some(records)
    }

    /// Captures what `ids` look like now, before any panel has run.
    ///
    /// This is the `before` side of anything an interaction does during the
    /// frame, and what "a new frame" means: an undo that fired when no frame
    /// was watching does not swallow the next frame's real edit.
    pub fn watch(&mut self, view: SceneView<'_>, ids: &[SceneId])
        ensures
            any_capture_fails(*view.scene, ids@) ==> final(self)@ == (HistoryModel {
                recorded: false,
                watched_selected: view.selected,
                ..cleared(old(self)@)
            }),
            !any_capture_fails(*view.scene, ids@) ==> {
                &&& captures_of(*view.scene, ids@, final(self)@.watched)
                &&& final(self)@ == (HistoryModel {
                    watched: final(self)@.watched,
                    recorded: false,
                    watched_selected: view.selected,
                    ..old(self)@
                })
            },
    {
        proof {
            use_type_invariant(&*self);
        }
        self.recorded_this_frame = false;
        self.watched_selected = view.selected;
        match History::capture_all(view.scene, ids) {
            Some(records) => {
                self.watched = records;
            },
            None => {
                self.clear();
            },
        }
    }

    /// Says the interaction responsible for this frame's changes is still live,
    /// and what to call it.
    pub fn claim(&mut self, label: &'static str)
        ensures
            final(self)@ == (HistoryModel { claim: Some(label), ..old(self)@ }),
    {
        proof {
            use_type_invariant(&*self);
        }
        self.claim = Some(label);
    }

    /// Opens an edit over ids the watcher does not cover.
    ///
    /// For actions whose entities are not the selection, or do not exist yet:
    /// spawn, delete, and clearing the scene.
    pub fn begin(&mut self, label: &'static str, view: SceneView<'_>, ids: &[SceneId])
        ensures
            any_capture_fails(*view.scene, ids@) ==> final(self)@ == cleared(old(self)@),
            !any_capture_fails(*view.scene, ids@) ==> {
                &&& final(self)@.open matches Some(open) && open.label == label
                    && open.selected_before == view.selected && open.explicit && captures_of(
                    *view.scene,
                    ids@,
                    open.before,
                )
                &&& final(self)@ == (HistoryModel { open: final(self)@.open, ..old(self)@ })
            },
    {
        proof {
            use_type_invariant(&*self);
        }
        match History::capture_all(view.scene, ids) {
            Some(before) => {
                self.open = Some(
                    OpenEdit { label, before, selected_before: view.selected, explicit: true },
                );
            },
            None => {
                self.clear();
            },
        }
    }

    /// Closes the open edit.
    pub fn commit(&mut self, view: SceneView<'_>)
        ensures
            old(self)@.open is None ==> final(self)@ == old(self)@,
            old(self)@.open matches Some(open) ==> pushed(
                HistoryModel { open: None, recorded: true, ..old(self)@ },
                final(self)@,
                open,
                *view.scene,
                view.selected,
            ),
            old(self)@.open matches Some(open) ==> (!any_fails_in(*view.scene, open.before)
                && !unchanged_since(*view.scene, open.before) ==> {
                &&& final(self)@.undone.len() == 0
                &&& final(self)@.done.len() == if old(self)@.done.len() < MAX_EDITS {
                    old(self)@.done.len() + 1
                } else {
                    MAX_EDITS as nat
                }
                &&& final(self)@.done.last().label == open.label
            }),
            final(self)@.done.len() + final(self)@.undone.len() <= MAX_EDITS,
    {
        let none: [SceneId; 0] = [];
        self.commit_including(view, &none);
        proof {
            if old(self)@.open is Some {
                let open = old(self)@.open.unwrap();
                assert(with_absent(open.before, none@) =~= open.before);
                assert(OpenModel { before: with_absent(open.before, none@), ..open } == open);
            }
        }
    }

    /// Closes the open edit, including ids that appeared while it was open.
    ///
    /// A spawn has no id to name when its edit opens; anything absent from the
    /// `before` side is recorded as not having existed, which is what makes the
    /// undo of a spawn a despawn.
    pub fn commit_including(&mut self, view: SceneView<'_>, ids: &[SceneId])
        ensures
            old(self)@.open is None ==> final(self)@ == old(self)@,
            old(self)@.open matches Some(open) ==> pushed(
                HistoryModel { open: None, recorded: true, ..old(self)@ },
                final(self)@,
                OpenModel { before: with_absent(open.before, ids@), ..open },
                *view.scene,
                view.selected,
            ),
            old(self)@.open matches Some(open) ==> (!any_fails_in(
                *view.scene,
                with_absent(open.before, ids@),
            ) && !unchanged_since(*view.scene, with_absent(open.before, ids@)) ==> {
                &&& final(self)@.undone.len() == 0
                &&& final(self)@.done.len() == if old(self)@.done.len() < MAX_EDITS {
                    old(self)@.done.len() + 1
                } else {
                    MAX_EDITS as nat
                }
                &&& final(self)@.done.last().label == open.label
            }),
            final(self)@.done.len() + final(self)@.undone.len() <= MAX_EDITS,
    {
        proof {
            use_type_invariant(&*self);
        }
        let mut taken: Option<OpenEdit> = None;
        std::mem::swap(&mut taken, &mut self.open);
        match taken {
            None => {},
            Some(open) => {
                let mut open = open;
                let ghost start = to_map(open.before@);
                let ghost first = open.model();
                let mut i: usize = 0;
                while i < ids.len()
                    invariant
                        0 <= i <= ids@.len(),
                        open.label == first.label,
                        open.selected_before == first.selected_before,
                        open.explicit == first.explicit,
                        sorted_keys(open.before@),
                        to_map(open.before@) == with_absent(start, ids@.subrange(0, i as int)),
                    decreases ids@.len() - i,
                {
                    let ghost previous = open.before@;
                    let id = ids[i];
                    or_insert(&mut open.before, id, None);
                    proof {
                        lemma_to_map(previous);
                        let done_ids = ids@.subrange(0, i as int);
                        assert(ids@.subrange(0, i + 1) =~= done_ids.push(id));
                        assert forall|k: SceneId| #[trigger] done_ids.push(id).contains(k) <==> (
                        done_ids.contains(k) || k == id) by {
                            if done_ids.push(id).contains(k) && k != id {
                                let j = choose|j: int|
                                    0 <= j < done_ids.len() + 1 && done_ids.push(id)[j] == k;
                                assert(done_ids[j] == k);
                            }
                            if done_ids.contains(k) {
                                let j = choose|j: int| 0 <= j < done_ids.len() && done_ids[j] == k;
                                assert(done_ids.push(id)[j] == k);
                            }
                            assert(done_ids.push(id)[done_ids.len() as int] == id);
                        }
                        let target = with_absent(start, done_ids.push(id));
                        let was = with_absent(start, done_ids);
                        assert(to_map(previous) == was);
                        if has_key(previous, id) {
                            assert(to_map(previous).dom().contains(id));
                            assert(was.dom().contains(id));
                            assert(was =~= target);
                        } else {
                            assert(!to_map(previous).dom().contains(id));
                            assert(!start.dom().contains(id));
                            assert(was.insert(id, None) =~= target);
                        }
                    }
                    i = i + 1;
                }
                proof {
                    assert(ids@.subrange(0, ids@.len() as int) =~= ids@);
                    assert(open.model() == OpenModel { before: with_absent(first.before, ids@), ..first });
                }
                self.recorded_this_frame = true;
                proof {
                    assert(self@ == HistoryModel { open: None, recorded: true, ..old(self)@ });
                }
                let ghost pre = self@;
                self.push(open, view);
                proof {
                    let closed = open.model();
                    if !any_fails_in(*view.scene, closed.before) && !unchanged_since(
                        *view.scene,
                        closed.before,
                    ) {
                        lemma_new_entry_clears_redo(pre, self@, closed, *view.scene, view.selected);
                    }
                }
            },
        }
    }

    /// Folds this frame's watched changes into the open edit, and closes it
    /// unless a claim says the interaction is still going.
    pub fn end_frame(&mut self, view: SceneView<'_>)
        ensures
            ended_frame(old(self)@, final(self)@, *view.scene, view.selected),
            final(self)@.done.len() + final(self)@.undone.len() <= MAX_EDITS,
    {
        proof {
            use_type_invariant(&*self);
        }
        let claim = self.claim;
        self.claim = None;
        if self.recorded_this_frame {
            self.recorded_this_frame = false;
            return;
        }
        let changed = History::changed(view.scene, &self.watched);
        let mut taken: Option<OpenEdit> = None;
        std::mem::swap(&mut taken, &mut self.open);
        if changed {
            let mut watched: Vec<(SceneId, Option<String>)> = Vec::new();
            std::mem::swap(&mut watched, &mut self.watched);
            proof {
                assert(to_map(self.watched@) =~= Map::empty());
            }
            let open = match taken {
                None => {
                    let label = match claim {
                        Some(label) => label,
                        None => "Edit",
                    };
                    OpenEdit {
                        label,
                        before: watched,
                        selected_before: self.watched_selected,
                        explicit: false,
                    }
                },
                Some(open) => {
                    let mut open = open;
                    merge(&mut open.before, watched);
                    open
                },
            };
            if open.explicit || claim.is_some() {
                self.open = Some(open);
            } else {
                self.push(open, view);
            }
        } else {
            match taken {
                None => {},
                Some(open) => {
                    if open.explicit || claim.is_some() {
                        self.open = Some(open);
                    } else {
                        self.push(open, view);
                    }
                },
            }
        }
    }

    /// Whether any watched id holds a different record than it did.
    fn changed(scene: &SceneRecords, watched: &Vec<(SceneId, Option<String>)>) -> (changed: bool)
        requires
            sorted_keys(watched@),
        ensures
            changed == watched_changed(*scene, to_map(watched@)),
    {
        proof {
            lemma_to_map(watched@);
        }
        let mut i: usize = 0;
        while i < watched.len()
            invariant
                0 <= i <= watched@.len(),
                sorted_keys(watched@),
                forall|j: int|
                    0 <= j < i ==> !(scene.capture_spec(#[trigger] watched@[j].0) matches Ok(
                        now,
                    ) && now != record_view(watched@[j].1)),
            decreases watched@.len() - i,
        {
            let id = watched[i].0;
            match scene.capture(id) {
                Ok(now) => {
                    if !same_record(&now, &watched[i].1) {
                        proof {
                            lemma_to_map(watched@);
                            assert(watched@[i as int].0 == id);
                            assert(has_key(watched@, id));
                            assert(to_map(watched@).dom().contains(id));
                            assert(to_map(watched@)[id] == watched@[i as int].1);
                        }
                        return true;
                    }
                },
                Err(()) => {},
            }
            i = i + 1;
        }
        proof {
            lemma_to_map(watched@);
            assert forall|id: SceneId| #[trigger] to_map(watched@).dom().contains(id) implies !(
            scene.capture_spec(id) matches Ok(now) && now != record_view(to_map(watched@)[id])) by {
                let j = choose|j: int| 0 <= j < watched@.len() && watched@[j].0 == id;
                assert(watched@[j].0 == id);
            }
        }
        false
    }

    /// Puts the newest entry's `before` side back: hands back what the caller
    /// must do to the world, or `None` when there was nothing to undo.
    pub fn undo(&mut self) -> (restore: Option<Restore>)
        ensures
            old(self)@.done.len() == 0 ==> restore is None && final(self)@ == old(self)@,
            old(self)@.done.len() > 0 ==> {
                &&& final(self)@ == undone_model(old(self)@)
                &&& restore matches Some(r) && steps_for(
                    r.steps@,
                    old(self)@.done.last().entities@,
                    Side::Before,
                ) && r.selection == old(self)@.done.last().selected_before
                &&& ordered_changes(old(self)@.done.last().entities@)
            },
    {
        proof {
            use_type_invariant(&*self);
        }
        let mut done: Vec<Edit> = Vec::new();
        std::mem::swap(&mut done, &mut self.done);
        match done.pop() {
            None => {
                self.done = done;
                None
            },
            Some(edit) => {
                let steps = edit.steps(Side::Before);
                let selection = edit.selection(Side::Before);
                let mut undone: Vec<Edit> = Vec::new();
                std::mem::swap(&mut undone, &mut self.undone);
                undone.push(edit);
                self.undone = undone;
                self.done = done;
                self.recorded_this_frame = true;
                Some(Restore { steps, selection })
            },
        }
    }

    /// Replays the entry the last undo put back: hands back what the caller
    /// must do to the world, or `None` when there was nothing to redo.
    pub fn redo(&mut self) -> (restore: Option<Restore>)
        ensures
            old(self)@.undone.len() == 0 ==> restore is None && final(self)@ == old(self)@,
            old(self)@.undone.len() > 0 ==> {
                &&& final(self)@ == redone_model(old(self)@)
                &&& restore matches Some(r) && steps_for(
                    r.steps@,
                    old(self)@.undone.last().entities@,
                    Side::After,
                ) && r.selection == old(self)@.undone.last().selected_after
                &&& ordered_changes(old(self)@.undone.last().entities@)
            },
    {
        proof {
            use_type_invariant(&*self);
        }
        let mut undone: Vec<Edit> = Vec::new();
        std::mem::swap(&mut undone, &mut self.undone);
        match undone.pop() {
            None => {
                self.undone = undone;
                None
            },
            Some(edit) => {
                let steps = edit.steps(Side::After);
                let selection = edit.selection(Side::After);
                let mut done: Vec<Edit> = Vec::new();
                std::mem::swap(&mut done, &mut self.done);
                done.push(edit);
                self.done = done;
                self.undone = undone;
                self.recorded_this_frame = true;
                Some(Restore { steps, selection })
            },
        }
    }

    /// What the next undo would put back.
    pub fn undo_label(&self) -> (label: Option<&'static str>)
        ensures
            self@.done.len() == 0 ==> label is None,
            self@.done.len() > 0 ==> label == Some(self@.done.last().label),
    {
        if self.done.len() == 0 {
            None
        } else {
            Some(self.done[self.done.len() - 1].label)
        }
    }

    /// What the next redo would replay.
    pub fn redo_label(&self) -> (label: Option<&'static str>)
        ensures
            self@.undone.len() == 0 ==> label is None,
            self@.undone.len() > 0 ==> label == Some(self@.undone.last().label),
    {
        if self.undone.len() == 0 {
            None
        } else {
            Some(self.undone[self.undone.len() - 1].label)
        }
    }

    /// How many entries can be undone; the two stacks together never hold
    /// more than the cap.
    pub fn len(&self) -> (n: usize)
        ensures
            n == self@.done.len(),
            self@.done.len() + self@.undone.len() <= MAX_EDITS,
    {
        proof {
            use_type_invariant(self);
        }
        self.done.len()
    }

    /// Whether there is anything to undo.
    pub fn is_empty(&self) -> (empty: bool)
        ensures
            empty == (self@.done.len() == 0),
    {
        self.done.len() == 0
    }

    /// How many entries can be redone.
    pub fn redo_len(&self) -> (n: usize)
        ensures
            n == self@.undone.len(),
            self@.done.len() + self@.undone.len() <= MAX_EDITS,
    {
        proof {
            use_type_invariant(self);
        }
        self.undone.len()
    }

    /// Forgets everything, including any edit in progress.
    ///
    /// `Scene ▸ Open` is the caller: every id in the stack belongs to the scene
    /// being closed.
    pub fn clear(&mut self)
        ensures
            final(self)@ == cleared(old(self)@),
    {
        proof {
            use_type_invariant(&*self);
        }
        self.done = Vec::new();
        self.undone = Vec::new();
        self.open = None;
        self.watched = Vec::new();
        proof {
            assert(to_map(self.watched@) =~= Map::empty());
        }
    }

    /// Captures the `after` side and pushes the entry, unless nothing changed.
    fn push(&mut self, open: OpenEdit, view: SceneView<'_>)
        requires
            sorted_keys(open.before@),
        ensures
            pushed(old(self)@, final(self)@, open.model(), *view.scene, view.selected),
    {
        proof {
            use_type_invariant(&*self);
        }
        let ghost model = open.model();
        let OpenEdit { label, before, selected_before, explicit: _ } = open;
        let ghost all = before@;
        proof {
            lemma_to_map(all);
        }
        let mut before = before;
        let mut entities: Vec<EntityChange> = Vec::new();
        let ghost mut k: int = 0;
        while before.len() > 0
            invariant
                old(self).well_formed(),
                *self == *old(self),
                model == open.model(),
                model.before == to_map(all),
                0 <= k <= all.len(),
                before@ == all.skip(k),
                entities@.len() == k,
                sorted_keys(all),
                forall|j: int|
                    0 <= j < k ==> {
                        let change = #[trigger] entities@[j];
                        &&& change.id == all[j].0
                        &&& change.before == all[j].1
                        &&& view.scene.capture_spec(change.id) == captured(change.after)
                    },
            decreases before@.len(),
        {
            let (id, record) = before.remove(0);
            proof {
                assert(all.skip(k)[0] == all[k]);
                assert(all.skip(k).drop_first() =~= all.skip(k + 1));
            }
            match view.scene.capture(id) {
                Ok(after) => {
                    entities.push(EntityChange { id, before: record, after });
                    proof {
                        k = k + 1;
                    }
                },
                Err(()) => {
                    proof {
                        lemma_to_map(all);
                        assert(all[k].0 == id);
                        assert(has_key(all, id));
                        assert(model.before.dom().contains(all[k].0));
                        assert(capture_fails(*view.scene, all[k].0));
                    }
                    self.clear();
                    return;
                },
            }
        }
        proof {
            assert(k == all.len());
        }
        let edit = Edit {
            label,
            entities,
            selected_before,
            selected_after: view.selected,
        };
        proof {
            assert(!any_fails_in(*view.scene, model.before)) by {
                assert forall|id: SceneId| #[trigger] model.before.dom().contains(id) implies !capture_fails(
                    *view.scene,
                    id,
                ) by {
                    let j = choose|j: int| 0 <= j < all.len() && all[j].0 == id;
                    assert(edit.entities@[j].id == id);
                }
            }
            assert(records_edit(edit, model, *view.scene, view.selected)) by {
                assert forall|id: SceneId| #[trigger] model.before.dom().contains(id) <==> exists|i: int|
                    0 <= i < edit.entities@.len() && edit.entities@[i].id == id by {
                    if model.before.dom().contains(id) {
                        let j = choose|j: int| 0 <= j < all.len() && all[j].0 == id;
                        assert(edit.entities@[j].id == id);
                    }
                    if exists|i: int| 0 <= i < edit.entities@.len() && edit.entities@[i].id == id {
                        let i = choose|i: int|
                            0 <= i < edit.entities@.len() && edit.entities@[i].id == id;
                        assert(all[i].0 == id);
                        assert(has_key(all, id));
                    }
                }
                assert forall|i: int| 0 <= i < edit.entities@.len() implies {
                    let change = #[trigger] edit.entities@[i];
                    &&& model.before.dom().contains(change.id)
                    &&& model.before[change.id] == change.before
                    &&& view.scene.capture_spec(change.id) == captured(change.after)
                } by {
                    assert(edit.entities@[i] == entities@[i]);
                    assert(has_key(all, all[i].0));
                }
            }
        }
        if edit.is_noop() {
            proof {
                assert forall|id: SceneId| #[trigger] model.before.dom().contains(id) implies view.scene.capture_spec(
                    id,
                ) == captured(model.before[id]) by {
                    let j = choose|j: int| 0 <= j < all.len() && all[j].0 == id;
                    assert(edit.entities@[j].id == id);
                }
            }
            return;
        }
        proof {
            let j = choose|j: int|
                0 <= j < edit.entities@.len() && record_view(edit.entities@[j].before)
                    != record_view(edit.entities@[j].after);
            let id = edit.entities@[j].id;
            assert(model.before.dom().contains(id));
            assert(!unchanged_since(*view.scene, model.before));
        }
        let mut done: Vec<Edit> = Vec::new();
        std::mem::swap(&mut done, &mut self.done);
        let mut undone: Vec<Edit> = Vec::new();
        std::mem::swap(&mut undone, &mut self.undone);
        done.push(edit);
        if done.len() > MAX_EDITS {
            let _ = done.remove(0);
        }
        proof {
            assert(done@ =~= trimmed(old(self)@.done.push(edit)));
            assert(ordered_changes(edit.entities@));
            assert forall|i: int| 0 <= i < done@.len() implies ordered_changes(
                #[trigger] done@[i].entities@,
            ) by {
                let pushed_all = old(self)@.done.push(edit);
                if old(self)@.done.len() + 1 > MAX_EDITS {
                    assert(done@[i] == pushed_all[i + 1]);
                } else {
                    assert(done@[i] == pushed_all[i]);
                }
            }
        }
        self.done = done;
    }
}

/// Undoing the newest entry and then redoing it puts both stacks back as they
/// were: the entry redo replays is the one undo put back.
pub proof fn lemma_undo_then_redo(m: HistoryModel)
    requires
        m.done.len() > 0,
    ensures
        undone_model(m).undone.last() == m.done.last(),
        redone_model(undone_model(m)) == (HistoryModel { recorded: true, ..m }),
{
    assert(m.done.drop_last().push(m.done.last()) =~= m.done);
    assert(m.undone.push(m.done.last()).drop_last() =~= m.undone);
}

/// Redoing an entry and then undoing it puts both stacks back as they were.
pub proof fn lemma_redo_then_undo(m: HistoryModel)
    requires
        m.undone.len() > 0,
    ensures
        redone_model(m).done.last() == m.undone.last(),
        undone_model(redone_model(m)) == (HistoryModel { recorded: true, ..m }),
{
    assert(m.undone.drop_last().push(m.undone.last()) =~= m.undone);
    assert(m.done.push(m.undone.last()).drop_last() =~= m.done);
}

/// An edit whose sides describe the same scene never becomes an entry.
pub proof fn lemma_noop_is_not_an_entry(
    pre: HistoryModel,
    post: HistoryModel,
    open: OpenModel,
    scene: SceneRecords,
    selected: Option<SceneId>,
)
    requires
        pushed(pre, post, open, scene, selected),
        unchanged_since(scene, open.before),
    ensures
        post == pre,
{
    if any_fails_in(scene, open.before) {
        let id = choose|id: SceneId| #[trigger] open.before.dom().contains(id) && capture_fails(
            scene,
            id,
        );
        assert(scene.capture_spec(id) == captured(open.before[id]));
    }
}

/// A new entry clears the redo stack: the branch that was undone away is gone.
/// It is the newest entry, and the history grows by one until the cap.
pub proof fn lemma_new_entry_clears_redo(
    pre: HistoryModel,
    post: HistoryModel,
    open: OpenModel,
    scene: SceneRecords,
    selected: Option<SceneId>,
)
    requires
        pre.done.len() <= MAX_EDITS,
        pushed(pre, post, open, scene, selected),
        !any_fails_in(scene, open.before),
        !unchanged_since(scene, open.before),
    ensures
        post.undone.len() == 0,
        records_edit(post.done.last(), open, scene, selected),
        post.done.len() == if pre.done.len() < MAX_EDITS {
            pre.done.len() + 1
        } else {
            MAX_EDITS as nat
        },
{
    let e = choose|e: Edit|
        records_edit(e, open, scene, selected) && post.done == trimmed(pre.done.push(e));
    assert(post.done.last() == e);
}

/// Past the cap the oldest entry is the one dropped: every other entry stays,
/// in order, and the new one is last.
pub proof fn lemma_cap_drops_the_oldest(
    pre: HistoryModel,
    post: HistoryModel,
    open: OpenModel,
    scene: SceneRecords,
    selected: Option<SceneId>,
)
    requires
        pre.done.len() == MAX_EDITS,
        pushed(pre, post, open, scene, selected),
        !any_fails_in(scene, open.before),
        !unchanged_since(scene, open.before),
    ensures
        post.done.len() == MAX_EDITS,
        post.done.drop_last() == pre.done.drop_first(),
{
    let e = choose|e: Edit|
        records_edit(e, open, scene, selected) && post.done == trimmed(pre.done.push(e));
    assert(post.done.drop_last() =~= pre.done.drop_first());
}

/// A record that cannot be captured clears the history rather than leaving a
/// stack that misrepresents what the next undo restores.
pub proof fn lemma_failed_capture_clears(
    pre: HistoryModel,
    post: HistoryModel,
    open: OpenModel,
    scene: SceneRecords,
    selected: Option<SceneId>,
)
    requires
        pushed(pre, post, open, scene, selected),
        any_fails_in(scene, open.before),
    ensures
        post.done.len() == 0,
        post.undone.len() == 0,
        post.open is None,
{
}

/// While a claim says the interaction is still live, ending a frame adds no
/// entry and leaves the redo stack alone: a drag is one entry, not one per
/// frame.
pub proof fn lemma_live_claim_adds_no_entry(
    pre: HistoryModel,
    post: HistoryModel,
    scene: SceneRecords,
    selected: Option<SceneId>,
)
    requires
        ended_frame(pre, post, scene, selected),
        pre.claim is Some,
    ensures
        post.done == pre.done,
        post.undone == pre.undone,
        post.claim is None,
{
}

/// A frame whose change was already recorded — by an explicit edit or by an
/// undo or a redo — records nothing more when it ends.
pub proof fn lemma_recorded_frame_adds_nothing(
    pre: HistoryModel,
    post: HistoryModel,
    scene: SceneRecords,
    selected: Option<SceneId>,
)
    requires
        ended_frame(pre, post, scene, selected),
        pre.recorded,
    ensures
        post == (HistoryModel { claim: None, recorded: false, ..pre }),
{
}

/// An undo does not become an entry: the frame it fired in ends with both
/// stacks as the undo left them.
pub proof fn lemma_undo_is_not_an_entry(
    m: HistoryModel,
    post: HistoryModel,
    scene: SceneRecords,
    selected: Option<SceneId>,
)
    requires
        m.done.len() > 0,
        ended_frame(undone_model(m), post, scene, selected),
    ensures
        post.done == m.done.drop_last(),
        post.undone == m.undone.push(m.done.last()),
{
}

/// An edit already open keeps, for every id it holds, the record it saw
/// first: folding later frames in never moves its `before` side forward.
pub proof fn lemma_open_edit_keeps_the_oldest_record(
    m: HistoryModel,
    claim: Option<&'static str>,
    id: SceneId,
)
    requires
        m.open matches Some(open) && open.before.dom().contains(id),
    ensures
        folded(m, claim).before.dom().contains(id),
        folded(m, claim).before[id] == m.open.unwrap().before[id],
{
}

/// With nothing open, the edit a frame's watched change opens starts from the
/// watch: its `before` side is what was watched, its selection is the one the
/// frame was watched with, it is called what the claim said (or "Edit"), and
/// it closes by itself.
pub proof fn lemma_a_new_edit_starts_from_the_watch(m: HistoryModel, claim: Option<&'static str>)
    requires
        m.open is None,
    ensures
        folded(m, claim).before == m.watched,
        folded(m, claim).selected_before == m.watched_selected,
        claim matches Some(label) ==> folded(m, claim).label == label,
        claim is None ==> folded(m, claim).label@ == "Edit"@,
        !folded(m, claim).explicit,
{
}

/// A watched change with nothing open and no claim becomes one entry whose
/// `before` side is every watched id as it was captured when the frame was
/// watched, and whose `after` side is each one as it is when the frame ends.
/// Undoing that entry writes back exactly the records of the watch.
pub proof fn lemma_watched_change_records_the_frame(
    watched_scene: SceneRecords,
    ids: Seq<SceneId>,
    pre: HistoryModel,
    post: HistoryModel,
    scene: SceneRecords,
    selected: Option<SceneId>,
)
    requires
        captures_of(watched_scene, ids, pre.watched),
        pre.open is None,
        pre.claim is None,
        !pre.recorded,
        pre.done.len() <= MAX_EDITS,
        watched_changed(scene, pre.watched),
        ended_frame(pre, post, scene, selected),
        !any_fails_in(scene, pre.watched),
    ensures
        post.undone.len() == 0,
        post.done.last().label@ == "Edit"@,
        post.done.last().selected_before == pre.watched_selected,
        post.done.last().selected_after == selected,
        forall|i: int|
            0 <= i < post.done.last().entities@.len() ==> {
                let change = #[trigger] post.done.last().entities@[i];
                &&& ids.contains(change.id)
                &&& watched_scene.capture_spec(change.id) == captured(change.before)
                &&& scene.capture_spec(change.id) == captured(change.after)
            },
        forall|id: SceneId|
            ids.contains(id) ==> exists|i: int|
                0 <= i < post.done.last().entities@.len() && #[trigger] post.done.last().entities@[i].id
                    == id,
{
    let open = folded(pre, None);
    let base = HistoryModel { open: None, watched: Map::empty(), claim: None, recorded: false, ..pre };
    assert(open.before == pre.watched);
    assert(!unchanged_since(scene, open.before)) by {
        let id = choose|id: SceneId|
            #[trigger] pre.watched.dom().contains(id) && (scene.capture_spec(id) matches Ok(now)
                && now != record_view(pre.watched[id]));
        assert(scene.capture_spec(id) != captured(pre.watched[id]));
    }
    assert(pushed(base, post, open, scene, selected));
    lemma_new_entry_clears_redo(base, post, open, scene, selected);
    let e = post.done.last();
    assert forall|id: SceneId| ids.contains(id) implies exists|i: int|
        0 <= i < e.entities@.len() && #[trigger] e.entities@[i].id == id by {
        assert(open.before.dom().contains(id));
    }
}

/// Carrying out what an undo hands back leaves every entity the undone entry
/// names holding the record it had on the entry's `before` side, and every
/// other id of the scene as it was.
pub proof fn lemma_undo_puts_the_before_side_back(
    m: HistoryModel,
    steps: Seq<ApplyStep>,
    scene: Map<SceneId, Option<Seq<char>>>,
)
    requires
        m.done.len() > 0,
        ordered_changes(m.done.last().entities@),
        steps_for(steps, m.done.last().entities@, Side::Before),
    ensures
        forall|i: int|
            0 <= i < m.done.last().entities@.len() ==> {
                let change = #[trigger] m.done.last().entities@[i];
                written(scene, steps).dom().contains(change.id) && written(scene, steps)[change.id]
                    == record_view(change.before)
            },
        forall|id: SceneId|
            !names(m.done.last().entities@, id) ==> #[trigger] left_alone(
                scene,
                written(scene, steps),
                id,
            ),
{
    lemma_steps_put_the_side_back(scene, steps, m.done.last().entities@, Side::Before);
}

/// Carrying out what a redo hands back leaves every entity the redone entry
/// names holding the record it had on the entry's `after` side, and every
/// other id of the scene as it was.
pub proof fn lemma_redo_puts_the_after_side_back(
    m: HistoryModel,
    steps: Seq<ApplyStep>,
    scene: Map<SceneId, Option<Seq<char>>>,
)
    requires
        m.undone.len() > 0,
        ordered_changes(m.undone.last().entities@),
        steps_for(steps, m.undone.last().entities@, Side::After),
    ensures
        forall|i: int|
            0 <= i < m.undone.last().entities@.len() ==> {
                let change = #[trigger] m.undone.last().entities@[i];
                written(scene, steps).dom().contains(change.id) && written(scene, steps)[change.id]
                    == record_view(change.after)
            },
        forall|id: SceneId|
            !names(m.undone.last().entities@, id) ==> #[trigger] left_alone(
                scene,
                written(scene, steps),
                id,
            ),
{
    lemma_steps_put_the_side_back(scene, steps, m.undone.last().entities@, Side::After);
}

/// Whether `start` is `prev` once a new frame has been watched without a
/// failed capture and, where `claim` is `Some`, claimed.
pub open spec fn frame_start(
    prev: HistoryModel,
    start: HistoryModel,
    claim: Option<&'static str>,
) -> bool {
    start == HistoryModel {
        watched: start.watched,
        watched_selected: start.watched_selected,
        recorded: false,
        claim,
        ..prev
    }
}

/// The edit a frame with no claim closes: the open edit with this frame's
/// watched changes folded in.
pub open spec fn released_edit(start: HistoryModel, scene: SceneRecords) -> OpenModel {
    if watched_changed(scene, start.watched) {
        folded(start, None)
    } else {
        start.open.unwrap()
    }
}

/// Whether `m` holds the edit a drag keeps open between frames: the stacks of
/// `first`, no claim left over, and an implicit edit called `label`, with the
/// selection `selected` the drag began with, that still holds the record every
/// id of `oldest` had when the drag began.
pub open spec fn drag_in_progress(
    first: HistoryModel,
    m: HistoryModel,
    label: &'static str,
    oldest: Map<SceneId, Option<String>>,
    selected: Option<SceneId>,
) -> bool {
    &&& m.done == first.done
    &&& m.undone == first.undone
    &&& m.claim is None
    &&& !m.recorded
    &&& m.open matches Some(open) && open.label == label && !open.explicit
        && open.selected_before == selected && forall|id: SceneId|
        #[trigger] oldest.dom().contains(id) ==> open.before.dom().contains(id) && open.before[id]
            == oldest[id]
}

/// Whether frames `0..n` of `starts` and `ends` are a drag from `first`: each
/// frame watched and claimed as `label`, then ended, the first one seeing a
/// change.
pub open spec fn claimed_frames(
    first: HistoryModel,
    starts: Seq<HistoryModel>,
    ends: Seq<HistoryModel>,
    scenes: Seq<SceneRecords>,
    selected: Seq<Option<SceneId>>,
    label: &'static str,
    n: nat,
) -> bool {
    &&& n <= starts.len() && n <= ends.len() && n <= scenes.len() && n <= selected.len()
    &&& first.open is None
    &&& 0 < n ==> frame_start(first, starts[0], Some(label)) && watched_changed(
        scenes[0],
        starts[0].watched,
    )
    &&& forall|k: int| 0 < k < n ==> frame_start(ends[k - 1], #[trigger] starts[k], Some(label))
    &&& forall|k: int|
        0 <= k < n ==> ended_frame(#[trigger] starts[k], ends[k], scenes[k], selected[k])
}

/// Every claimed frame of a drag ends with the edit still open and both
/// stacks as they were.
proof fn lemma_claimed_frames_keep_the_edit_open(
    first: HistoryModel,
    starts: Seq<HistoryModel>,
    ends: Seq<HistoryModel>,
    scenes: Seq<SceneRecords>,
    selected: Seq<Option<SceneId>>,
    label: &'static str,
    n: nat,
    k: nat,
)
    requires
        claimed_frames(first, starts, ends, scenes, selected, label, n),
        k < n,
    ensures
        drag_in_progress(first, ends[k as int], label, starts[0].watched, starts[0].watched_selected),
    decreases k,
{
    let start = starts[k as int];
    assert(ended_frame(start, ends[k as int], scenes[k as int], selected[k as int]));
    if k == 0 {
        assert(frame_start(first, start, Some(label)));
    } else {
        lemma_claimed_frames_keep_the_edit_open(
            first,
            starts,
            ends,
            scenes,
            selected,
            label,
            n,
            (k - 1) as nat,
        );
        assert(frame_start(ends[k - 1], start, Some(label)));
        let open = start.open.unwrap();
        if watched_changed(scenes[k as int], start.watched) {
            assert forall|id: SceneId| #[trigger] starts[0].watched.dom().contains(id) implies folded(
                start,
                Some(label),
            ).before.dom().contains(id) && folded(start, Some(label)).before[id]
                == starts[0].watched[id] by {
                lemma_open_edit_keeps_the_oldest_record(start, Some(label), id);
            }
        }
    }
}

/// A drag is one entry, not one per frame.
///
/// Frames that are watched, claimed as `label` and ended keep one edit open
/// and leave both stacks alone, however many there are. The first frame that
/// ends without a claim closes it: the history then has one entry more (up to
/// the cap), called `label`, whose `before` side holds every id the drag's
/// first frame watched with the record it had then, and nothing to redo; or,
/// where the drag put everything back, no entry at all; or, where a record
/// could not be captured, an empty history.
pub proof fn lemma_a_drag_is_one_entry(
    first: HistoryModel,
    starts: Seq<HistoryModel>,
    ends: Seq<HistoryModel>,
    scenes: Seq<SceneRecords>,
    selected: Seq<Option<SceneId>>,
    label: &'static str,
    n: nat,
)
    requires
        first.done.len() <= MAX_EDITS,
        1 <= n,
        n < starts.len() && n < ends.len() && n < scenes.len() && n < selected.len(),
        claimed_frames(first, starts, ends, scenes, selected, label, n),
        frame_start(ends[n - 1], starts[n as int], None),
        ended_frame(starts[n as int], ends[n as int], scenes[n as int], selected[n as int]),
    ensures
        forall|k: int|
            0 <= k < n ==> {
                &&& (#[trigger] ends[k]).done == first.done
                &&& ends[k].undone == first.undone
                &&& ends[k].open matches Some(open) && open.label == label
            },
        ends[n as int].open is None,
        released_edit(starts[n as int], scenes[n as int]).label == label,
        released_edit(starts[n as int], scenes[n as int]).selected_before
            == starts[0].watched_selected,
        forall|id: SceneId| #[trigger]
            starts[0].watched.dom().contains(id) ==> released_edit(
                starts[n as int],
                scenes[n as int],
            ).before.dom().contains(id) && released_edit(starts[n as int], scenes[n as int]).before[id]
                == starts[0].watched[id],
        ({
            let edit = released_edit(starts[n as int], scenes[n as int]);
            let scene = scenes[n as int];
            let last = ends[n as int];
            &&& any_fails_in(scene, edit.before) ==> last.done.len() == 0 && last.undone.len() == 0
            &&& !any_fails_in(scene, edit.before) && unchanged_since(scene, edit.before) ==> last.done
                == first.done && last.undone == first.undone
            &&& !any_fails_in(scene, edit.before) && !unchanged_since(scene, edit.before) ==> {
                &&& last.undone.len() == 0
                &&& last.done.len() == if first.done.len() < MAX_EDITS {
                    first.done.len() + 1
                } else {
                    MAX_EDITS as nat
                }
                &&& last.done.last().label == label
                &&& last.done.last().selected_before == starts[0].watched_selected
                &&& records_edit(last.done.last(), edit, scene, selected[n as int])
            }
        }),
{
    assert forall|k: int| 0 <= k < n implies {
        &&& (#[trigger] ends[k]).done == first.done
        &&& ends[k].undone == first.undone
        &&& ends[k].open matches Some(open) && open.label == label
    } by {
        lemma_claimed_frames_keep_the_edit_open(first, starts, ends, scenes, selected, label, n, k as nat);
    }
    lemma_claimed_frames_keep_the_edit_open(
        first,
        starts,
        ends,
        scenes,
        selected,
        label,
        n,
        (n - 1) as nat,
    );
    let start = starts[n as int];
    let scene = scenes[n as int];
    let edit = released_edit(start, scene);
    let open = start.open.unwrap();
    let base = HistoryModel { claim: None, recorded: false, ..start };
    let pre = if watched_changed(scene, start.watched) {
        HistoryModel { open: None, watched: Map::empty(), ..base }
    } else {
        HistoryModel { open: None, ..base }
    };
    if watched_changed(scene, start.watched) {
        assert forall|id: SceneId| #[trigger] starts[0].watched.dom().contains(id) implies edit.before.dom().contains(
            id,
        ) && edit.before[id] == starts[0].watched[id] by {
            lemma_open_edit_keeps_the_oldest_record(start, None, id);
        }
    }
    assert(pushed(pre, ends[n as int], edit, scene, selected[n as int]));
    if !any_fails_in(scene, edit.before) && !unchanged_since(scene, edit.before) {
        lemma_new_entry_clears_redo(pre, ends[n as int], edit, scene, selected[n as int]);
    }
}

} // verus!
