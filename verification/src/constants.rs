//! Settings shared across the editor.

use vstd::prelude::*;

verus! {

/// The undo history size used when the preferences do not say otherwise.
pub const UNDO_STACK_SIZE_DEFAULT: usize = 20;

/// The smallest undo history size the preferences dialog offers.
pub const UNDO_STACK_SIZE_MIN: usize = 1;

/// The largest undo history size the preferences dialog offers.
pub const UNDO_STACK_SIZE_MAX: usize = 100;

} // verus!
