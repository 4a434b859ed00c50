//! Which transform the next drag in the viewport performs.
//!
//! The tool is persistent state, and the gizmo on screen tells the user what a
//! drag will do before it starts. The letters that select the tools (`W`, `E`,
//! `R`) belong to the input layer; this module names the tools and what the
//! history and the toolbar call them.

use vstd::prelude::*;

verus! {

/// The active transform tool.
#[derive(Debug, Clone, Copy, PartialEq, Eq, Structural)]
pub enum Tool {
    /// Click to select, drag a handle to move.
    Translate,
    /// Drag the ring to turn the selection about its own origin.
    Rotate,
    /// Drag an arm to scale along one local axis, the centre to scale both.
    Scale,
}

/// The letter of the key that selects `tool`: `W`, `E`, `R`, the binding
/// every major editor agrees on.
pub open spec fn tool_key(tool: Tool) -> char {
    match tool {
        Tool::Translate => 'W',
        Tool::Rotate => 'E',
        Tool::Scale => 'R',
    }
}

/// What the history calls one drag of `tool`.
pub open spec fn tool_label(tool: Tool) -> Seq<char> {
    match tool {
        Tool::Translate => "Move"@,
        Tool::Rotate => "Rotate"@,
        Tool::Scale => "Scale"@,
    }
}

/// The glyph the toolbar draws for `tool`.
pub open spec fn tool_glyph(tool: Tool) -> Seq<char> {
    match tool {
        Tool::Translate => "✥"@,
        Tool::Rotate => "⟳"@,
        Tool::Scale => "⤢"@,
    }
}

/// The tooltip the toolbar shows for `tool`, its key included.
pub open spec fn tool_hint(tool: Tool) -> Seq<char> {
    match tool {
        Tool::Translate => "Move (W) — drag an arm for one axis, the centre for both"@,
        Tool::Rotate => "Rotate (E) — drag the ring; the selection turns about its origin"@,
        Tool::Scale => "Scale (R) — drag an arm for one local axis, the centre for both"@,
    }
}

impl Default for Tool {
    /// The tool an editor starts with: translate.
    fn default() -> (tool: Tool)
        ensures
            tool == Tool::Translate,
    {
        Tool::Translate
    }
}

impl Tool {
    /// Every tool, in the order their keys sit on the keyboard.
    pub const ALL: [Tool; 3] = [Tool::Translate, Tool::Rotate, Tool::Scale];

    /// The letter of the key that selects this tool.
    pub fn key(self) -> (key: char)
        ensures
            key == tool_key(self),
    {
        match self {
            Tool::Translate => 'W',
            Tool::Rotate => 'E',
            Tool::Scale => 'R',
        }
    }

    /// What the history calls one drag of this tool, read as "Undo Move".
    pub fn label(self) -> (label: &'static str)
        ensures
            label@ == tool_label(self),
    {
        match self {
            Tool::Translate => "Move",
            Tool::Rotate => "Rotate",
            Tool::Scale => "Scale",
        }
    }

    /// The glyph the toolbar draws for this tool.
    pub fn glyph(self) -> (glyph: &'static str)
        ensures
            glyph@ == tool_glyph(self),
    {
        match self {
            Tool::Translate => "✥",
            Tool::Rotate => "⟳",
            Tool::Scale => "⤢",
        }
    }

    /// The tooltip the toolbar shows, key included.
    pub fn hint(self) -> (hint: &'static str)
        ensures
            hint@ == tool_hint(self),
    {
        match self {
            Tool::Translate => "Move (W) — drag an arm for one axis, the centre for both",
            Tool::Rotate => "Rotate (E) — drag the ring; the selection turns about its origin",
            Tool::Scale => "Scale (R) — drag an arm for one local axis, the centre for both",
        }
    }
}

/// No two tools share a history label.
///
/// Two tools with one label would merge in the Edit menu, where the label is
/// the only thing telling one entry from the next.
pub proof fn lemma_tool_labels_are_distinct(a: Tool, b: Tool)
    requires
        a != b,
    ensures
        tool_label(a) != tool_label(b),
{
    reveal_strlit("Move");
    reveal_strlit("Rotate");
    reveal_strlit("Scale");
    assert(tool_label(a).len() != tool_label(b).len());
}

/// No two tools share a key, so a key always selects exactly one tool.
pub proof fn lemma_tool_keys_are_distinct(a: Tool, b: Tool)
    requires
        a != b,
    ensures
        tool_key(a) != tool_key(b),
{
}

/// `Tool::ALL` lists every tool exactly once.
pub proof fn lemma_all_tools_listed_once(tool: Tool)
    ensures
        exists|i: int| 0 <= i < 3 && Tool::ALL@[i] == tool,
        forall|i: int, j: int| 0 <= i < j < 3 ==> Tool::ALL@[i] != Tool::ALL@[j],
{
    match tool {
        Tool::Translate => assert(Tool::ALL@[0] == tool),
        Tool::Rotate => assert(Tool::ALL@[1] == tool),
        Tool::Scale => assert(Tool::ALL@[2] == tool),
    }
}

} // verus!
