//! A directory-tree archiver and restorer for cargo's cache directories.
//!
//! The library collects a fixed set of cache directories under a root path
//! into one compressed archive, and re-expands such an archive under a
//! (possibly different) root, reproducing relative paths and permission
//! bits.  All path handling, entry planning and the archive round trip are
//! verified; the archive container itself is the `zip` crate, called through
//! a small trusted boundary, and all filesystem traffic is left to the
//! calling program.
use vstd::prelude::*;

pub mod backup;
pub mod fsmodel;
pub mod laws;
pub mod restore;
pub mod paths;
pub mod zipio;

verus! {

/// The two operations the library supports, with their already-parsed
/// arguments: create a backup archive, or restore one.
pub enum Opt {
    /// Back the cache directories up into an archive at `save_path`.
    Bak { save_path: String, compression_level: Option<i32> },
    /// Restore the archive at `path` under the root.
    Restore { path: String },
}

/// The cache areas a backup walks, as paths relative to the root, in
/// backup order: the version-control object database, the crate cache,
/// and the index.
pub open spec fn cache_subdirs_spec() -> Seq<Seq<char>> {
    seq!["git/db"@, "registry/cache"@, "registry/index"@]
}

/// The cache areas a backup walks, in backup order.  A caller walks each
/// of these under the root, skipping any that does not exist.
pub fn cache_subdirs() -> (r: Vec<String>)
    ensures
        r.deep_view() =~= cache_subdirs_spec(),
{
    let mut v: Vec<String> = Vec::new();
    v.push(String::from_str("git/db"));
    v.push(String::from_str("registry/cache"));
    v.push(String::from_str("registry/index"));
    proof {
        assert(v.deep_view() =~= cache_subdirs_spec());
    }
    v
}

} // verus!
