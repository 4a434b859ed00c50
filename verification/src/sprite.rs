//! What the sprite inspector decides about a sheet's frames and a clip's.
//!
//! A clip is a list of atlas indices played in order. The inspector bounds
//! each index by the sheet, appends the frame after the last one, and drops
//! the one right-clicked; the widgets themselves are the caller's.

use vstd::prelude::*;

verus! {

/// The last frame of a sheet of `frames_in_atlas` frames, as the index
/// widgets take it: zero for a sheet with none.
pub open spec fn last_frame_spec(frames_in_atlas: usize) -> u32 {
    if frames_in_atlas == 0 {
        0
    } else {
        (frames_in_atlas - 1) as u32
    }
}

/// The last frame of a sheet of `frames_in_atlas` frames, as the index
/// widgets take it: zero for a sheet with none.
pub fn last_frame(frames_in_atlas: usize) -> (last: u32)
    ensures
        last == last_frame_spec(frames_in_atlas),
{
    let last = if frames_in_atlas == 0 {
        0
    } else {
        frames_in_atlas - 1
    };
    last as u32
}

/// The range a frame index may be dragged over: up to the sheet's last frame,
/// or unbounded while no sheet is loaded, so that an atlas the editor has not
/// read yet cannot silently rewrite a clip's indices to zero.
pub fn frame_bound(frames_in_atlas: usize) -> (bound: Option<u32>)
    ensures
        frames_in_atlas > 0 ==> bound == Some(last_frame_spec(frames_in_atlas)),
        frames_in_atlas == 0 ==> bound is None,
{
    if frames_in_atlas > 0 {
        Some(last_frame(frames_in_atlas))
    } else {
        None
    }
}

/// The frame "+" appends to `frames` on a sheet whose last frame is `last`:
/// the one after the clip's last frame, wrapping to the first past the end of
/// the sheet, which is what extending a run cycle almost always means.
pub open spec fn next_frame_spec(frames: Seq<u32>, last: u32) -> u32 {
    if frames.len() == 0 {
        0
    } else if frames.last() >= last {
        0
    } else {
        (frames.last() + 1) as u32
    }
}

/// The frame "+" appends to `frames` on a sheet whose last frame is `last`.
pub fn next_frame(frames: &[u32], last: u32) -> (next: u32)
    ensures
        next == next_frame_spec(frames@, last),
{
    if frames.len() == 0 {
        0
    } else {
        let frame = frames[frames.len() - 1];
        if frame >= last {
            0
        } else {
            frame + 1
        }
    }
}

/// The clip once this frame's row has been acted on: the next frame appended
/// when "+" was pressed, then the right-clicked slot dropped.
pub open spec fn edited_frames(
    frames: Seq<u32>,
    last: u32,
    add: bool,
    remove: Option<usize>,
) -> Seq<u32> {
    let grown = if add {
        frames.push(next_frame_spec(frames, last))
    } else {
        frames
    };
    match remove {
        Some(slot) => grown.remove(slot as int),
        None => grown,
    }
}

/// Acts on the clip's row: appends the next frame when `add`, then drops the
/// frame in slot `remove`. Returns whether the clip changed, which is what
/// names the entry "Edit frames" in the history.
pub fn edit_frames(frames: &mut Vec<u32>, last: u32, add: bool, remove: Option<usize>) -> (changed:
    bool)
    requires
        remove matches Some(slot) ==> slot < old(frames)@.len(),
    ensures
        final(frames)@ == edited_frames(old(frames)@, last, add, remove),
        changed == (add || remove is Some),
{
    if add {
        let next = next_frame(frames.as_slice(), last);
        frames.push(next);
    }
    match remove {
        Some(slot) => {
            frames.remove(slot);
        },
        None => {},
    }
    add || remove.is_some()
}

/// The pair swapped when the sprite is mirrored on that axis, so the preview
/// draws the frame the way the sprite itself is drawn.
pub fn mirrored<T: Copy>(flip: bool, min: T, max: T) -> (pair: (T, T))
    ensures
        pair == (if flip {
            (max, min)
        } else {
            (min, max)
        }),
{
    if flip {
        (max, min)
    } else {
        (min, max)
    }
}

/// Appending to a clip stays on the sheet: when the sheet has frames and the
/// clip's frames are on it, so is the one "+" adds.
pub proof fn lemma_next_frame_is_on_the_sheet(frames: Seq<u32>, frames_in_atlas: usize)
    requires
        0 < frames_in_atlas <= 0x1_0000_0000,
        forall|i: int| 0 <= i < frames.len() ==> frames[i] < frames_in_atlas,
    ensures
        next_frame_spec(frames, last_frame_spec(frames_in_atlas)) < frames_in_atlas,
{
    assert(((frames_in_atlas - 1) as u32) == frames_in_atlas - 1);
}

} // verus!
