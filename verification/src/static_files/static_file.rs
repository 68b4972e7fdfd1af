//! A single file mounted at a fixed path.
use vstd::prelude::*;

use crate::bytes::clone_bytes;

verus! {

/// Serves one file. The library keeps the file's path and its MIME type;
/// reading it from disk is the embedding program's part.
pub struct StaticFile {
    path: Vec<u8>,
}

impl StaticFile {
    pub closed spec fn path_spec(&self) -> Seq<u8> {
        self.path@
    }

    /// Mount the file at `path`.
    pub fn mount(path: &[u8]) -> (r: Self)
        ensures
            r.path_spec() == path@,
    {
        StaticFile { path: clone_bytes(path) }
    }

    /// The file's path.
    pub fn path(&self) -> (r: &Vec<u8>)
        ensures
            r@ == self.path_spec(),
    {
        &self.path
    }

    /// The MIME type the file is served as.
    pub fn mime_type(&self) -> (r: Vec<u8>)
        ensures
            r@ == crate::mime::mime_of(self.path_spec()),
    {
        crate::mime::filename_to_mime(self.path.as_slice())
    }
}

} // verus!
