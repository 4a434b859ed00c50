//! Asset paths as the editor shows and takes them: the browser's path bar,
//! and the fields where a path is typed.
//!
//! The bar shows the root, then one button per component of the directory
//! being browsed, and each button leads to the directory that ends there, so
//! leaving a deep directory is one click rather than one per level.

use vstd::prelude::*;
use vstd::string::*;

use crate::spawn::{find_last, last_index_of, lemma_last_index_in_range};

verus! {

/// The buttons of the path bar for `dir`: each component of `dir`, split at
/// `/`, with the path walked up to and including it.
///
/// The walked path joins the components with `/`, except that nothing is put
/// in front of a component while the walk is still empty.
pub open spec fn crumbs(dir: Seq<char>) -> Seq<(Seq<char>, Seq<char>)>
    decreases dir.len(),
{
    let cut = last_index_of(dir, '/');
    if 0 <= cut < dir.len() {
        let before = crumbs(dir.take(cut));
        let part = dir.skip(cut + 1);
        let walked = if before.len() > 0 && before.last().1.len() > 0 {
            before.last().1 + seq!['/'] + part
        } else {
            part
        };
        before.push((part, walked))
    } else {
        seq![(dir, dir)]
    }
}

/// Whether `dir` is a path of non-empty components: not empty, and every `/`
/// between two components.
pub open spec fn components_nonempty(dir: Seq<char>) -> bool {
    &&& dir.len() > 0
    &&& forall|i: int|
        0 <= i < dir.len() && #[trigger] dir[i] == '/' ==> 0 < i < dir.len() - 1 && dir[i + 1]
            != '/'
}

/// The last button of the path bar leads to the directory being browsed, for
/// any path whose components are not empty.
pub proof fn lemma_last_crumb_is_the_directory(dir: Seq<char>)
    requires
        components_nonempty(dir),
    ensures
        crumbs(dir).len() > 0,
        crumbs(dir).last().1 == dir,
    decreases dir.len(),
{
    lemma_last_index_in_range(dir, '/');
    let cut = last_index_of(dir, '/');
    if 0 <= cut < dir.len() {
        let head = dir.take(cut);
        assert(dir[cut] == '/');
        assert(components_nonempty(head)) by {
            assert forall|i: int| 0 <= i < head.len() && #[trigger] head[i] == '/' implies 0 < i
                < head.len() - 1 && head[i + 1] != '/' by {
                assert(dir[i] == '/');
                if i == cut - 1 {
                    assert(dir[i + 1] == '/');
                }
                assert(head[i + 1] == dir[i + 1]);
            }
        }
        lemma_last_crumb_is_the_directory(head);
        assert(head + seq!['/'] + dir.skip(cut + 1) =~= dir);
    }
}

/// The view of a path bar, each button as its two texts.
pub open spec fn crumbs_view(bar: Seq<(String, String)>) -> Seq<(Seq<char>, Seq<char>)> {
    bar.map_values(|crumb: (String, String)| (crumb.0@, crumb.1@))
}

/// The path bar for `dir`: each component and the directory it leads to.
pub fn breadcrumb(dir: &str) -> (bar: Vec<(String, String)>)
    ensures
        crumbs_view(bar@) == crumbs(dir@),
        bar@.len() >= 1,
    decreases dir@.len(),
{
    let n = dir.unicode_len();
    proof {
        lemma_last_index_in_range(dir@, '/');
    }
    match find_last(dir, '/') {
        None => {
            let mut bar: Vec<(String, String)> = Vec::new();
            bar.push((String::from_str(dir), String::from_str(dir)));
            proof {
                assert(crumbs_view(bar@) =~= crumbs(dir@));
            }
            bar
        },
        Some(cut) => {
            let head = dir.substring_char(0, cut);
            let part = dir.substring_char(cut + 1, n);
            proof {
                assert(head@ =~= dir@.take(cut as int));
                assert(part@ =~= dir@.skip(cut + 1));
            }
            let mut bar = breadcrumb(head);
            let ghost before = bar@;
            let last = bar.len() - 1;
            let walked = if bar[last].1.unicode_len() > 0 {
                let mut walked = bar[last].1.clone();
                proof {
                    reveal_strlit("/");
                }
                walked.append("/");
                walked.append(part);
                walked
            } else {
                String::from_str(part)
            };
            bar.push((String::from_str(part), walked));
            proof {
                let spec_before = crumbs(dir@.take(cut as int));
                assert(crumbs_view(before) == spec_before);
                assert(spec_before.last() == crumbs_view(before)[last as int]);
                assert(spec_before.last().1 == before[last as int].1@);
                assert(walked@ == (if spec_before.len() > 0 && spec_before.last().1.len() > 0 {
                    spec_before.last().1 + seq!['/'] + part@
                } else {
                    part@
                }));
                assert(crumbs(dir@) == spec_before.push((part@, walked@)));
                assert(crumbs_view(bar@) =~= spec_before.push((part@, walked@)));
            }
            bar
        },
    }
}


/// What a path field does with its text this frame.
#[derive(Debug, Clone, Copy, PartialEq, Eq, Structural)]
pub enum PathCommit {
    /// Clear the path.
    Clear,
    /// Set the path to the text, once it is checked to be a valid asset path.
    Submit,
    /// Leave the committed path as it is.
    Keep,
}

/// What a path field does: "Clear" clears; a field left with text that
/// differs from the committed path submits it, or clears when emptied; and
/// anything else keeps what is committed, so typing alone changes nothing
/// until the field is left.
pub open spec fn commit_spec(clear_clicked: bool, lost_focus: bool, text: Seq<char>, committed: Seq<char>) -> PathCommit {
    if clear_clicked {
        PathCommit::Clear
    } else if lost_focus && text != committed {
        if text.len() == 0 {
            PathCommit::Clear
        } else {
            PathCommit::Submit
        }
    } else {
        PathCommit::Keep
    }
}

/// Whether `a` and `b` hold the same text.
fn same_text(a: &str, b: &str) -> (same: bool)
    ensures
        same == (a@ == b@),
{
    let n = a.unicode_len();
    if n != b.unicode_len() {
        return false;
    }
    let mut i: usize = 0;
    while i < n
        invariant
            n == a@.len(),
            n == b@.len(),
            0 <= i <= n,
            forall|k: int| 0 <= k < i ==> a@[k] == b@[k],
        decreases n - i,
    {
        if a.get_char(i) != b.get_char(i) {
            return false;
        }
        i = i + 1;
    }
    proof {
        assert(a@ =~= b@);
    }
    true
}

/// What a path field does with `text` this frame, given whether "Clear" was
/// clicked and whether the field was just left.
pub fn path_commit(clear_clicked: bool, lost_focus: bool, text: &str, committed: &str) -> (commit:
    PathCommit)
    ensures
        commit == commit_spec(clear_clicked, lost_focus, text@, committed@),
        clear_clicked ==> commit == PathCommit::Clear,
        !clear_clicked && !lost_focus ==> commit == PathCommit::Keep,
        text@ == committed@ && text@.len() > 0 ==> commit != PathCommit::Submit,
{
    if clear_clicked {
        PathCommit::Clear
    } else if lost_focus && !same_text(text, committed) {
        if text.unicode_len() == 0 {
            PathCommit::Clear
        } else {
            PathCommit::Submit
        }
    } else {
        PathCommit::Keep
    }
}

/// "Clear" wins: a click on it clears the path whatever else happened that
/// frame, the field losing focus to that very click included. Without it,
/// only leaving the field with a different text commits anything, and leaving
/// it unchanged keeps what is committed.
pub proof fn lemma_clear_wins(
    clear_clicked: bool,
    lost_focus: bool,
    text: Seq<char>,
    committed: Seq<char>,
)
    ensures
        clear_clicked ==> commit_spec(clear_clicked, lost_focus, text, committed)
            == PathCommit::Clear,
        commit_spec(true, lost_focus, text, committed) == commit_spec(true, false, text, committed),
        !clear_clicked && (!lost_focus || text == committed) ==> commit_spec(
            clear_clicked,
            lost_focus,
            text,
            committed,
        ) == PathCommit::Keep,
        !clear_clicked && lost_focus && text != committed && text.len() > 0 ==> commit_spec(
            clear_clicked,
            lost_focus,
            text,
            committed,
        ) == PathCommit::Submit,
{
}

} // verus!
