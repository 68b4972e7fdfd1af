//! A directory mounted under a path prefix.
use vstd::prelude::*;

use crate::bytes::clone_bytes;
use crate::static_files::{find_file, find_file_spec, join_spec, segments_of};
use crate::status::StatusCode;
use crate::Uri;

verus! {

/// Serves the files under `mount_dir` at the path prefix `serve_at`. The
/// library resolves paths; reading the file from disk is the embedding
/// program's part.
#[derive(Debug)]
pub struct StaticDir {
    mount_dir: Vec<u8>,
    serve_at: Vec<u8>,
}

impl StaticDir {
    pub closed spec fn mount_dir_spec(&self) -> Seq<u8> {
        self.mount_dir@
    }

    pub closed spec fn serve_at_spec(&self) -> Seq<u8> {
        self.serve_at@
    }

    /// Serve the files under the directory `mount_dir` at the path prefix
    /// `serve_at`.
    pub fn mount(mount_dir: &[u8], serve_at: &[u8]) -> (r: Self)
        ensures
            r.mount_dir_spec() == mount_dir@,
            r.serve_at_spec() == serve_at@,
    {
        StaticDir { mount_dir: clone_bytes(mount_dir), serve_at: clone_bytes(serve_at) }
    }

    /// Resolve a request path below the mount; a path that climbs out of
    /// the mount directory is rejected with `NotFound`.
    pub fn find_file(&self, uri: &Uri) -> (r: Result<Vec<u8>, StatusCode>)
        ensures
            match find_file_spec(self.mount_dir_spec(), self.serve_at_spec(), uri@) {
                None => r == Err::<Vec<u8>, StatusCode>(StatusCode::NotFound),
                Some(segs) => r is Ok && r->Ok_0@ == join_spec(segs) && segments_of(
                    self.mount_dir_spec(),
                ).is_prefix_of(segs),
            },
    {
        find_file(uri, self.mount_dir.as_slice(), self.serve_at.as_slice())
    }
}

} // verus!
