//! The working-directory context of a mass-move run, and path
//! normalization: a path given by the user is cleaned lexically relative
//! to the working directory and then expressed relative to it again.
//!
//! Listing the directory tree and performing the actual renames are
//! filesystem work and live with the unverified shell around this
//! library.

use vstd::prelude::*;

use crate::text::{occurs_here, str_to_chars};

verus! {

/// What lexical path cleaning yields for `file` joined onto `dir`: the
/// joined path with repeated separators collapsed and `.` and `..`
/// elements resolved. This tool works with unix-style paths, whose
/// component structure is fixed by the text alone, so the result is a
/// pure function of the two texts.
pub uninterp spec fn cleaned_join(dir: Seq<char>, file: Seq<char>) -> Seq<char>;

/// Relies on `path_clean::clean`: lexical cleaning of the `std::path`
/// join of `dir` and `file`, touching no filesystem state, so for the
/// unix-style paths this tool works with the result depends on the two
/// strings alone.
#[verifier::external_body]
fn clean_joined(dir: &str, file: &str) -> (r: String)
    ensures
        r@ == cleaned_join(dir@, file@),
{
    let joined = std::path::Path::new(dir).join(file);
    path_clean::clean(joined).to_string_lossy().into_owned()
}

/// The cleaned path expressed relative to the working directory: defined
/// when the directory's text is a proper prefix of the cleaned path, and
/// then the remainder past the prefix and the separator after it.
pub open spec fn strip_under(dir: Seq<char>, cleaned: Seq<char>) -> Option<Seq<char>> {
    if cleaned.len() > dir.len() && cleaned.subrange(0, dir.len() as int) == dir {
        Some(cleaned.subrange(dir.len() as int + 1, cleaned.len() as int))
    } else {
        None
    }
}

/// The working directory a mass-move run operates in, and whether moves
/// may overwrite existing files.
pub struct FileSystemManager {
    pub current_dir: String,
    pub force_overwrite: bool,
}

impl FileSystemManager {
    /// A context rooted at `current_dir`. When `force_overwrite` is not
    /// set, the move collaborator must refuse to replace existing files.
    pub fn new(current_dir: String, force_overwrite: bool) -> (r: Self)
        ensures
            r.current_dir == current_dir,
            r.force_overwrite == force_overwrite,
    {
        FileSystemManager { current_dir, force_overwrite }
    }

    /// `file` cleaned relative to the working directory and expressed
    /// relative to it: `None` when the cleaned path does not lie under
    /// the working directory's text.
    pub fn normalize_path(&self, file: &str) -> (r: Option<String>)
        ensures
            r.deep_view() == strip_under(self.current_dir@, cleaned_join(self.current_dir@, file@)),
    {
        let cleaned = clean_joined(self.current_dir.as_str(), file);
        let cchars = str_to_chars(cleaned.as_str());
        let dchars = str_to_chars(self.current_dir.as_str());
        if cchars.len() > dchars.len() && occurs_here(&cchars, &dchars, 0) {
            let stripped = cleaned.as_str().substring_char(dchars.len() + 1, cchars.len());
            Some(stripped.to_owned())
        } else {
            None
        }
    }
}

} // verus!
