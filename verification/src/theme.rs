//! Icons of the editor's theme.

use vstd::prelude::*;

verus! {

/// An icon in the icon atlas.
#[derive(Clone, Copy, Debug, PartialEq, Eq, Structural)]
pub enum IconAtlasSprite {
    Undo,
    Redo,
}

impl IconAtlasSprite {
    /// The column and row of the icon's cell in the atlas.
    pub fn atlas_cell(self) -> (r: (u32, u32))
        ensures
            r == match self {
                IconAtlasSprite::Undo => (0u32, 1u32),
                IconAtlasSprite::Redo => (1u32, 1u32),
            },
    {
        match self {
            IconAtlasSprite::Undo => (0, 1),
            IconAtlasSprite::Redo => (1, 1),
        }
    }
}

} // verus!
