//! Names of files and directories, taken from their paths.

use vstd::prelude::*;

verus! {

/// The final component of `path`, as `std::path::Path::file_name` gives it,
/// with what is not Unicode in it replaced. What the components of a path are
/// depends on the platform, so nothing is stated of the result.
#[verifier::external_body]
pub(crate) fn file_name(path: &str) -> (name: Option<String>) {
    match std::path::Path::new(path).file_name() {
        Some(name) => Some(name.to_string_lossy().into_owned()),
        None => None,
    }
}

/// The name to show for a file or a directory: its own, or `<unknown>` where it has none.
pub open spec fn shown_name(name: Option<Seq<char>>) -> Seq<char> {
    match name {
        Some(name) => name,
        None => "<unknown>"@,
    }
}

} // verus!
