//! Which mode the user interface is in.

use vstd::prelude::*;

verus! {

/// The mode of the user interface: interactive, or showing one of the dialogs.
#[derive(Clone, Copy, Debug, PartialEq, Eq, Structural, Hash)]
pub enum UiState {
    Interactive,
    ShowingLoadFileDialog,
    ShowingLoadImageDialog,
    ShowingPreferencesDialog,
    ShowingSaveFileDialog,
}

impl Default for UiState {
    fn default() -> (r: Self)
        ensures
            r == UiState::Interactive,
    {
        UiState::Interactive
    }
}

impl UiState {
    pub fn is_interactive(&self) -> (r: bool)
        ensures
            r == (*self == UiState::Interactive),
    {
        matches!(self, UiState::Interactive)
    }
}

} // verus!
