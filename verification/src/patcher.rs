//! Exact-match file patching: given a file's current content, compute the
//! content to write back and report what happened.
//!
//! Nothing here touches the filesystem.  The caller reads the target file
//! (only after `is_safe_path` admits the path) and performs the write that
//! `apply_delta` hands back.

use vstd::prelude::*;
use vstd::string::*;
use crate::text::{contains_sub, find, find_from, find_sub, lemma_find_from, match_at,
    str_contains};

verus! {

/// What one patch application did, or why it did nothing.
pub enum PatchOutcome {
    /// The file did not exist; it is to be created with the new content.
    Created { path: String },
    /// The old content was empty; the whole file is to be replaced.
    Replaced { path: String },
    /// The old content was found; its first occurrence is to be substituted.
    Patched { path: String },
    /// The old content does not occur in the file; nothing is to be written.
    /// Carries the searched-for content for diagnostics.
    NotFound { path: String, old_content: String },
    /// The request never reached the filesystem.
    IoError { path: String, reason: String },
}

/// A relative path may address the project tree only: it is rejected when it
/// is absolute or mentions a parent directory.
pub open spec fn safe_path(p: Seq<char>) -> bool {
    !(p.len() > 0 && p[0] == '/') && !contains_sub(p, seq!['.', '.'])
}

pub fn is_safe_path(path: &str) -> (r: bool)
    ensures
        r == safe_path(path@),
{
    proof {
        reveal_strlit("..");
        assert(".."@ =~= seq!['.', '.']);
    }
    let n = path.unicode_len();
    if n > 0 && path.get_char(0) == '/' {
        return false;
    }
    !str_contains(path, "..")
}

/// `existing` with the occurrence of `old` at `p` replaced by `new`.
pub open spec fn splice(existing: Seq<char>, old: Seq<char>, new: Seq<char>, p: int) -> Seq<char>
    recommends
        match_at(existing, old, p),
{
    existing.subrange(0, p) + new + existing.subrange(p + old.len(), existing.len() as int)
}

/// The reason reported when a path fails the safety check.
pub open spec fn unsafe_path_reason() -> Seq<char> {
    "Error: Unsafe target file path"@
}

/// Decide a patch request against the file's current content.
///
/// `existing` is the file's content, or `None` when the file does not exist
/// (or could not be read).  The second component of the result is the content
/// the caller must write, or `None` when nothing is to be written.
pub fn apply_delta(path: &str, existing: Option<&str>, old_content: &str, new_content: &str)
    -> (r: (PatchOutcome, Option<String>))
    ensures
        !safe_path(path@) ==> {
            &&& r.0 matches PatchOutcome::IoError { path: p, reason }
                && p@ == path@ && reason@ == unsafe_path_reason()
            &&& r.1 is None
        },
        safe_path(path@) ==> match existing {
            None => {
                &&& r.0 matches PatchOutcome::Created { path: p } && p@ == path@
                &&& r.1 matches Some(w) && w@ == new_content@
            },
            Some(e) => {
                if old_content@.len() == 0 {
                    &&& r.0 matches PatchOutcome::Replaced { path: p } && p@ == path@
                    &&& r.1 matches Some(w) && w@ == new_content@
                } else if contains_sub(e@, old_content@) {
                    &&& r.0 matches PatchOutcome::Patched { path: p } && p@ == path@
                    &&& r.1 matches Some(w)
                        && w@ == splice(e@, old_content@, new_content@,
                            find_sub(e@, old_content@))
                } else {
                    &&& r.0 matches PatchOutcome::NotFound { path: p, old_content: oc }
                        && p@ == path@ && oc@ == old_content@
                    &&& r.1 is None
                }
            },
        },
{
    if !is_safe_path(path) {
        return (
            PatchOutcome::IoError {
                path: String::from_str(path),
                reason: String::from_str("Error: Unsafe target file path"),
            },
            None,
        );
    }
    match existing {
        None => (
            PatchOutcome::Created { path: String::from_str(path) },
            Some(String::from_str(new_content)),
        ),
        Some(e) => {
            if old_content.unicode_len() == 0 {
                (
                    PatchOutcome::Replaced { path: String::from_str(path) },
                    Some(String::from_str(new_content)),
                )
            } else {
                match find(e, old_content, 0) {
                    Some(p) => {
                        proof {
                            lemma_find_from(e@, old_content@, 0);
                        }
                        let e_len = e.unicode_len();
                        let old_len = old_content.unicode_len();
                        let mut w = String::from_str(e.substring_char(0, p));
                        w.append(new_content);
                        w.append(e.substring_char(p + old_len, e_len));
                        (PatchOutcome::Patched { path: String::from_str(path) }, Some(w))
                    },
                    None => (
                        PatchOutcome::NotFound {
                            path: String::from_str(path),
                            old_content: String::from_str(old_content),
                        },
                        None,
                    ),
                }
            }
        },
    }
}

/// Round trip: after a file is created with some non-empty content, a patch
/// whose old content is exactly that content replaces the whole file, so the
/// content written is exactly the patch's new content.
pub proof fn lemma_create_then_patch(written: Seq<char>, newer: Seq<char>)
    requires
        written.len() > 0,
    ensures
        contains_sub(written, written),
        find_sub(written, written) == 0,
        splice(written, written, newer, find_sub(written, written)) == newer,
{
    assert(written.subrange(0, written.len() as int) =~= written);
    assert(find_from(written, written, 0) == 0);
    assert(splice(written, written, newer, 0) =~= newer);
}

} // verus!
