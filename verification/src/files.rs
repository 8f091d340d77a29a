//! The file-backed stores: the model-router registry and the review-fleet
//! roster each live in one bundle file. The library holds the file's path and
//! decides what a read of it means; reading, parsing and the atomic rewrite
//! are the caller's I/O.
use vstd::prelude::*;

verus! {

/// Size cap on the fleet roster's JSON bundle, applied before parsing.
pub const MAX_FLEET_BUNDLE_BYTES: usize = 4_194_304;

/// The model-router registry kept in one textproto bundle file.
pub struct FileRegistry {
    path: String,
}

/// The review-fleet roster kept in one JSON bundle file.
pub struct FileFleet {
    path: String,
}

impl FileRegistry {
    pub closed spec fn path_view(&self) -> Seq<char> {
        self.path@
    }

    /// A registry backed by the file at `path`.
    pub fn new(path: String) -> (r: FileRegistry)
        ensures
            r.path_view() == path@,
    {
        FileRegistry { path }
    }

    /// The backing file's path.
    pub fn path(&self) -> (p: &str)
        ensures
            p@ == self.path_view(),
    {
        self.path.as_str()
    }
}

impl FileFleet {
    pub closed spec fn path_view(&self) -> Seq<char> {
        self.path@
    }

    /// A roster backed by the file at `path`.
    pub fn new(path: String) -> (r: FileFleet)
        ensures
            r.path_view() == path@,
    {
        FileFleet { path }
    }

    /// The backing file's path.
    pub fn path(&self) -> (p: &str)
        ensures
            p@ == self.path_view(),
    {
        self.path.as_str()
    }
}

/// What a read of a bundle file amounts to.
#[derive(Debug, Clone, Copy, PartialEq, Eq, Structural)]
pub enum BundleRead {
    /// No file yet: the empty store (the first write creates it).
    Empty,
    /// Over the size cap: refused before it is parsed.
    TooLarge,
    /// Parse and re-validate the text.
    Parse,
}

/// The meaning of a read that found the file (`found`) holding `len` bytes,
/// under the size cap `cap`: an absent file is the empty store, an oversized
/// one is refused unparsed, anything else is parsed.
pub fn bundle_read(found: bool, len: usize, cap: usize) -> (r: BundleRead)
    ensures
        !found ==> r == BundleRead::Empty,
        found && len > cap ==> r == BundleRead::TooLarge,
        found && len <= cap ==> r == BundleRead::Parse,
{
    if !found {
        BundleRead::Empty
    } else if len > cap {
        BundleRead::TooLarge
    } else {
        BundleRead::Parse
    }
}

} // verus!
