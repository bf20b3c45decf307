//! The envelope of a save file.

use vstd::prelude::*;

verus! {

/// The version of the save format this editor writes.
pub const CURRENT_SAVE_VERSION: u16 = 1;

/// A save file: the format version and the encoded project.
#[derive(Clone, Debug)]
pub struct SaveContainer {
    pub version: u16,
    pub data: Vec<u8>,
}

impl SaveContainer {
    /// An envelope in the current format around `data`.
    pub fn current(data: Vec<u8>) -> (r: Self)
        ensures
            r.version == CURRENT_SAVE_VERSION,
            r.data@ == data@,
    {
        SaveContainer { version: CURRENT_SAVE_VERSION, data }
    }
}

} // verus!
