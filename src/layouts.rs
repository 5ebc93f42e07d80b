//! Which panels the window shows, and how they are split.

use vstd::prelude::*;

verus! {

/// Which of the editor and the preview are shown.
#[derive(Clone, Copy, Debug, PartialEq, Eq, Structural)]
pub enum LayoutMode {
    /// Only the editor.
    EditorOnly,
    /// Only the preview.
    PreviewOnly,
    /// Editor and preview side by side.
    Split,
}

impl Default for LayoutMode {
    fn default() -> (r: Self)
        ensures
            r == LayoutMode::Split,
    {
        LayoutMode::Split
    }
}

/// How a split layout divides the window.
#[derive(Clone, Copy, Debug, PartialEq, Eq, Structural)]
pub enum SplitDirection {
    /// Editor on the left, preview on the right.
    Horizontal,
    /// Editor on top, preview below.
    Vertical,
}

impl Default for SplitDirection {
    fn default() -> (r: Self)
        ensures
            r == SplitDirection::Horizontal,
    {
        SplitDirection::Horizontal
    }
}

} // verus!
