//! What a project is called: a digest of where it lies, and the record of that
//! place kept with its state.

use vstd::prelude::*;
use vstd::string::*;

use crate::digest::{fingerprint_of, fingerprint_text, FINGERPRINT_HEX_CHARS};
use crate::path::{join, join_path, PathStyle};
use crate::text::{opt_text, trim, trimmed};

verus! {

/// The file of a state directory that says which project it belongs to.
pub const ROOT_FILE: &'static str = "project.root";

/// The name of a project's state: a digest of its canonical root.
pub fn project_hash(canonical_root: &str) -> (r: String)
    ensures
        r@ == fingerprint_text(canonical_root.spec_bytes()),
        r@.len() == FINGERPRINT_HEX_CHARS,
{
    fingerprint_of(canonical_root.as_bytes())
}

/// Where the record of a project's root is kept, and what it says: the
/// canonical root.
pub fn record_project_root(state_dir: &str, canonical_root: &str, style: PathStyle) -> (r: (String, String))
    ensures
        r.0@ == join(state_dir@, ROOT_FILE@, style),
        r.1@ == canonical_root@,
{
    (join_path(state_dir, ROOT_FILE, style), canonical_root.to_owned())
}

/// The root that a record names; none where it is blank.
pub open spec fn recorded_root(contents: Seq<char>) -> Option<Seq<char>> {
    if trimmed(contents).len() == 0 {
        None
    } else {
        Some(trimmed(contents))
    }
}

/// The root that a record names. `contents` is what the record says, if it
/// could be read.
pub fn read_project_root(contents: Option<&str>) -> (r: Option<String>)
    ensures
        opt_text(r) == (match contents {
            Some(text) => recorded_root(text@),
            None => None,
        }),
{
    match contents {
        Some(text) => {
            let root = trim(text);
            if root.as_str().is_empty() {
                None
            } else {
                Some(root)
            }
        },
        None => None,
    }
}

/// A root that was recorded reads back, unless it starts or ends with white
/// space.
pub proof fn a_recorded_root_reads_back(root: Seq<char>)
    requires
        root.len() > 0,
        !crate::text::is_space(root[0]),
        !crate::text::is_space(root.last()),
    ensures
        recorded_root(root) == Some(root),
{
}

} // verus!
