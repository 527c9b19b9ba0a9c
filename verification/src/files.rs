//! Which files exist. A decision that turns on files on disk takes the ones
//! that are there as an argument, and is a function of that.

use vstd::prelude::*;

use crate::text::{contains_text, views};

verus! {

/// The paths that are known to name a regular file.
#[derive(Clone, Debug)]
pub struct Files {
    pub present: Vec<String>,
}

impl View for Files {
    type V = Set<Seq<char>>;

    open spec fn view(&self) -> Set<Seq<char>> {
        views(self.present@).to_set()
    }
}

impl Files {
    /// Whether `path` names a regular file.
    pub fn is_file(&self, path: &str) -> (r: bool)
        ensures
            r == self@.contains(path@),
    {
        contains_text(&self.present, path)
    }
}

} // verus!
