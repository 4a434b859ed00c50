//! Where the editor saves and opens its scene, and what its Edit menu says.

use vstd::prelude::*;
use vstd::string::*;

verus! {

/// Where the editor saves when no path has been chosen, relative to the
/// working directory.
pub fn default_path() -> (path: &'static str)
    ensures
        path@ == "assets/scenes/scene.ron"@,
{
    "assets/scenes/scene.ron"
}

/// What the Edit menu calls an undo or a redo: the verb alone, or the verb and
/// the label of the entry it would put back.
pub open spec fn entry_text(verb: Seq<char>, label: Option<Seq<char>>) -> Seq<char> {
    match label {
        Some(label) => verb + seq![' '] + label,
        None => verb,
    }
}

/// What the Edit menu calls an undo or a redo, read as "Undo Move".
pub fn entry(verb: &str, label: Option<&str>) -> (text: String)
    ensures
        text@ == entry_text(
            verb@,
            match label {
                Some(label) => Some(label@),
                None => None,
            },
        ),
{
    let mut text = String::from_str(verb);
    match label {
        Some(label) => {
            proof {
                reveal_strlit(" ");
            }
            text.append(" ");
            text.append(label);
        },
        None => {},
    }
    text
}

/// Whether an undo or redo entry can be chosen: only while editing, and only
/// with something on its stack. While playing the world is the simulation's,
/// and the entries are addressed against the authored scene.
pub fn entry_enabled(editing: bool, pending: usize) -> (enabled: bool)
    ensures
        enabled == (editing && pending > 0),
{
    editing && pending > 0
}

} // verus!
