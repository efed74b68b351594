//! Configuration for a static-file route with extension fallback.
//!
//! A [`FileExtServer`] names a root path and a route rank; the route
//! registration and request handling around it live with the hosting
//! server, outside this crate.

use vstd::prelude::*;

verus! {

/// The rank a file route gets when none is chosen.
pub const DEFAULT_RANK: isize = 10;

/// A file-serving route over a root path: either a single file or a
/// directory searched with an `html` extension fallback.
#[derive(Debug, Clone)]
pub struct FileExtServer {
    pub root: String,
    pub rank: isize,
}

impl FileExtServer {
    /// A route over the given root path, at the default rank.
    pub fn new(path: &str) -> (r: Self)
        ensures
            r.root@ == path@,
            r.rank == DEFAULT_RANK,
    {
        FileExtServer { root: path.to_owned(), rank: DEFAULT_RANK }
    }

    /// The same route at the given rank.
    pub fn rank(self, rank: isize) -> (r: Self)
        ensures
            r.root@ == self.root@,
            r.rank == rank,
    {
        FileExtServer { root: self.root, rank }
    }
}

} // verus!
