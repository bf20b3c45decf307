//! Choosing project files to open and to save to.

use vstd::prelude::*;

verus! {

/// The extension of project files.
pub const SUFFIX: &'static str = "yer";

/// The file name a new save starts with.
pub const DEFAULT_FILE_NAME: &'static str = "untitled.yer";

/// The name of the file filter for project files.
pub const FILE_FILTER_PROJECT_FILES_NAME: &'static str = "Project Files";

/// What a file dialog came to.
#[derive(Clone, Debug)]
pub enum DialogState {
    Open,
    Selected(String),
    Cancelled,
}

/// The file name a chosen save file gets: unchanged (`None`) when its extension is
/// already `yer`, otherwise the name with `.yer` appended, so `some.file` becomes
/// `some.file.yer`.
pub fn sanitized_file_name(file_name: &str, extension: Option<&str>) -> (r: Option<String>)
    ensures
        match extension {
            Some(e) if e@ == SUFFIX@ => r is None,
            _ => r matches Some(n) && n@ == file_name@ + "."@ + SUFFIX@,
        },
        match extension {
            Some(e) => file_extension(file_name@) == Some(e@),
            None => file_extension(file_name@) is None,
        } ==> match r {
            Some(n) => n@ == save_file_name(file_name@),
            None => file_name@ == save_file_name(file_name@),
        },
{
    let suffix = SUFFIX;
    let has_suffix = match extension {
        Some(e) => str_equal(e, suffix),
        None => false,
    };
    if has_suffix {
        None
    } else {
        let mut name = String::from_str(file_name);
        name.append(".");
        name.append(suffix);
        Some(name)
    }
}

/// Whether two strings hold the same characters.
fn str_equal(a: &str, b: &str) -> (r: bool)
    ensures
        r == (a@ == b@),
{
    let n = a.unicode_len();
    let m = b.unicode_len();
    if n != m {
        return false;
    }
    let mut i: usize = 0;
    while i < n
        invariant
            n == a@.len(),
            m == b@.len(),
            n == m,
            i <= n,
            forall|k: int| 0 <= k < i ==> a@[k] == b@[k],
        decreases n - i,
    {
        if a.get_char(i) != b.get_char(i) {
            return false;
        }
        i = i + 1;
    }
    assert(a@ =~= b@);
    true
}

/// The position of the last `.` in a file name, or -1 when there is none.
pub open spec fn last_dot(name: Seq<char>) -> int
    decreases name.len(),
{
    if name.len() == 0 {
        -1
    } else if name.last() == '.' {
        name.len() - 1
    } else {
        last_dot(name.drop_last())
    }
}

/// The extension of a file name, as `std::path::Path::extension` documents it:
/// the part after the last `.`, and none when the name has no `.` or its only
/// `.` is its first character.
pub open spec fn file_extension(name: Seq<char>) -> Option<Seq<char>> {
    let i = last_dot(name);
    if i <= 0 {
        None
    } else {
        Some(name.subrange(i + 1, name.len() as int))
    }
}

/// The name a save file gets from the chosen file name: unchanged when its
/// extension is `yer`, else with `.yer` appended.  `sanitized_file_name`,
/// given the name's extension, returns `None` for the first case and this name
/// for the second.
pub open spec fn save_file_name(name: Seq<char>) -> Seq<char> {
    if file_extension(name) == Some(SUFFIX@) {
        name
    } else {
        name + "."@ + SUFFIX@
    }
}

/// Whatever file name is chosen, the name a save gets has the extension `yer`,
/// so choosing that name again changes nothing: sanitizing twice is
/// sanitizing once.  (A chosen file name is never empty.)
pub proof fn lemma_sanitize_idempotent(name: Seq<char>)
    requires
        name.len() > 0,
    ensures
        file_extension(save_file_name(name)) == Some(SUFFIX@),
        save_file_name(save_file_name(name)) == save_file_name(name),
{
    reveal_strlit("yer");
    reveal_strlit(".");
    if file_extension(name) != Some(SUFFIX@) {
        let t = name + "."@ + SUFFIX@;
        let n = name.len() as int;
        assert(t.len() == n + 4);
        assert(t[n + 3] == 'r' && t[n + 2] == 'e' && t[n + 1] == 'y' && t[n] == '.');
        let t1 = t.drop_last();
        let t2 = t1.drop_last();
        let t3 = t2.drop_last();
        assert(t3 =~= name + "."@);
        assert(last_dot(t3) == n);
        assert(t2.last() == 'y');
        assert(last_dot(t2) == last_dot(t3));
        assert(t1.last() == 'e');
        assert(last_dot(t1) == last_dot(t2));
        assert(t.last() == 'r');
        assert(last_dot(t) == last_dot(t1));
        assert(t.subrange(n + 1, n + 4) =~= SUFFIX@);
    }
}

} // verus!
