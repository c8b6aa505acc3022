//! The directories that a browser of samples shows.

use crate::path::{file_name, shown_name};
use vstd::prelude::*;

verus! {

/// A directory, by its path and its name.
#[derive(Debug)]
pub struct Directory {
    name: Option<String>,
    path: String,
}

impl Directory {
    /// The path of the directory.
    pub closed spec fn spec_path(&self) -> Seq<char> {
        self.path@
    }

    /// The final component of the path, if it has one.
    pub closed spec fn file_name(&self) -> Option<Seq<char>> {
        match self.name {
            Some(name) => Some(name@),
            None => None,
        }
    }

    /// The directory at `path`, named by the final component of the path.
    pub fn new(path: &str) -> (directory: Self)
        ensures
            directory.spec_path() == path@,
    {
        Directory { name: file_name(path), path: path.to_owned() }
    }

    /// The name of the directory, or `<unknown>` where the path has none.
    pub fn name(&self) -> (name: &str)
        ensures
            name@ == shown_name(self.file_name()),
    {
        match &self.name {
            Some(name) => name.as_str(),
            None => "<unknown>",
        }
    }

    pub fn path(&self) -> (path: &str)
        ensures
            path@ == self.spec_path(),
    {
        self.path.as_str()
    }
}

} // verus!
