//! User preferences kept in a configuration file.

use vstd::prelude::*;

use crate::constants;

verus! {

/// Appended to the extension of the configuration file to name its backup.
pub const BACKUP_SUFFIX: &'static str = ".bak";

/// The user's preferences and the file they were read from.
#[derive(Clone, Debug)]
pub struct Preferences {
    max_undo_stack_size: usize,
    file_path: Option<String>,
}

/// The mathematical content of [`Preferences`].
pub struct PreferencesView {
    pub max_undo_stack_size: nat,
    pub file_path: Option<Seq<char>>,
}

impl View for Preferences {
    type V = PreferencesView;

    closed spec fn view(&self) -> PreferencesView {
        PreferencesView {
            max_undo_stack_size: self.max_undo_stack_size as nat,
            file_path: match self.file_path {
                Some(p) => Some(p@),
                None => None,
            },
        }
    }
}

impl Preferences {
    /// The undo history size is never zero.
    pub closed spec fn wf(&self) -> bool {
        self.max_undo_stack_size >= 1
    }

    pub fn max_undo_stack_size(&self) -> (r: usize)
        requires
            self.wf(),
        ensures
            r == self@.max_undo_stack_size,
            r >= 1,
    {
        self.max_undo_stack_size
    }

    pub fn set_max_undo_stack_size(&mut self, size: usize)
        requires
            size >= 1,
        ensures
            final(self)@.max_undo_stack_size == size,
            final(self)@.file_path == old(self)@.file_path,
            final(self).wf(),
    {
        self.max_undo_stack_size = size;
    }

    pub fn file_path(&self) -> (r: Option<&String>)
        ensures
            match r {
                Some(p) => self@.file_path == Some(p@),
                None => self@.file_path is None,
            },
    {
        match &self.file_path {
            Some(p) => Some(p),
            None => None,
        }
    }

    pub fn set_file_path(&mut self, path: String)
        ensures
            final(self)@.file_path == Some(path@),
            final(self)@.max_undo_stack_size == old(self)@.max_undo_stack_size,
            old(self).wf() ==> final(self).wf(),
    {
        self.file_path = Some(path);
    }
}

impl Default for Preferences {
    /// An undo history of `UNDO_STACK_SIZE_DEFAULT` actions, not tied to a file.
    fn default() -> (r: Self)
        ensures
            r@.max_undo_stack_size == constants::UNDO_STACK_SIZE_DEFAULT,
            r@.file_path is None,
            r.wf(),
    {
        Preferences { max_undo_stack_size: constants::UNDO_STACK_SIZE_DEFAULT, file_path: None }
    }
}

/// The extension of the backup of a configuration file whose extension is
/// `extension`: the same with `.bak` appended.
pub fn backup_extension(extension: &str) -> (r: String)
    ensures
        r@ == extension@ + BACKUP_SUFFIX@,
{
    let mut r = String::from_str(extension);
    r.append(BACKUP_SUFFIX);
    r
}

} // verus!
