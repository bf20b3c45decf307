//! The preferences dialog.

use vstd::prelude::*;

verus! {

/// Whether the preferences dialog stays open.
#[derive(Clone, Copy, Debug, PartialEq, Eq, Structural)]
pub enum DialogState {
    Open,
    Cancelled,
}

} // verus!
