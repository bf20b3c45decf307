//! The title of the editor window.

use vstd::prelude::*;

use crate::session::{Session, SessionState};

verus! {

/// What the title shows for a project without a file.
pub const UNSAVED_LABEL: &'static str = "(Unsaved)";

/// Placed between the project part of the title and the application's name.
pub const TITLE_SEPARATOR: &'static str = " \u{2014} ";

/// The window title for a session: `*` when there are unsaved changes, the
/// project's file (or `(Unsaved)`), and the application's name.
pub open spec fn window_title_text(s: SessionState, application_title: Seq<char>) -> Seq<char> {
    let status = if s.has_unsaved_changes() {
        "*"@
    } else {
        ""@
    };
    let file = match s.loaded_from {
        Some(p) => p,
        None => UNSAVED_LABEL@,
    };
    status + " "@ + file + TITLE_SEPARATOR@ + application_title
}

/// The window title for a session.
pub fn window_title(session: &Session, application_title: &str) -> (r: String)
    ensures
        r@ == window_title_text(session@, application_title@),
{
    let mut r = if session.has_unsaved_changes() {
        String::from_str("*")
    } else {
        String::from_str("")
    };
    r.append(" ");
    match session.get_file_path() {
        Some(p) => r.append(p.as_str()),
        None => r.append(UNSAVED_LABEL),
    }
    r.append(TITLE_SEPARATOR);
    r.append(application_title);
    r
}

} // verus!
