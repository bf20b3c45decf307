//! The decisions behind the editor's user interface.

pub mod file_dialog;
pub mod layer;
pub mod preferences_dialog;
pub mod state;
pub mod title;
