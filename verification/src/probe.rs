//! The synchronous directory check.
//!
//! The caller reads the path's metadata (an I/O step that stays outside the
//! library) and reports what it found as a [`PathKind`]; [`is_dir`] turns
//! that finding into the answer the UI layer is owed: `Ok(true)` for a
//! directory, `Ok(false)` for any other existing entry, and a fixed error
//! string when no metadata could be read.

use vstd::prelude::*;

verus! {

/// What a metadata probe of a path found.
#[derive(Clone, Copy, PartialEq, Eq, Structural, Debug)]
pub enum PathKind {
    /// The path exists and is a directory.
    Directory,
    /// The path exists and is not a directory (a file, symlink, device, ...).
    Other,
    /// The path's metadata could not be read (missing path, denied access).
    Unreadable,
}

/// The error string reported when a path's metadata cannot be read.
pub open spec fn metadata_error() -> Seq<char> {
    "Failed to get metadata"@
}

/// Whether `path` is a directory, given what the metadata probe found.
///
/// Succeeds exactly on readable paths; an unreadable path is reported as an
/// error, never as `Ok(false)`.
pub fn is_dir(kind: PathKind) -> (r: Result<bool, String>)
    ensures
        r is Ok <==> !(kind is Unreadable),
        kind is Directory ==> r == Result::<bool, String>::Ok(true),
        kind is Other ==> r == Result::<bool, String>::Ok(false),
        r matches Err(m) ==> m@ == metadata_error(),
{
    match kind {
        PathKind::Directory => Ok(true),
        PathKind::Other => Ok(false),
        PathKind::Unreadable => Err("Failed to get metadata".to_string()),
    }
}

} // verus!
