//! Verified core of a terrain height-map editor: undo history, session
//! bookkeeping, layer and mask ordering, bitmap bookkeeping and the
//! integer side of progressive previews.

pub mod id;
pub mod undo;
pub mod session;
pub mod layer;
pub mod preview;
pub mod bitmap;
pub mod constants;
pub mod math;
pub mod preferences;
pub mod theme;
pub mod ui;
