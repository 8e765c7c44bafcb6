//! File fingerprints for cache invalidation, and the scan cache.
use vstd::prelude::*;

verus! {

/// A modification time: seconds and nanoseconds relative to 1970-01-01 00:00 UTC.
#[derive(Debug, Clone, Copy, PartialEq, Eq, Structural)]
pub struct FileTime {
    pub secs: i64,
    pub nanos: u32,
}

/// Fingerprint of a file: if modification time and size match, the content is assumed
/// unchanged.
#[derive(Debug, Clone)]
pub struct FileFingerprint {
    /// Path of the file.
    pub path: String,
    /// Last modification time when the fingerprint was taken.
    pub mtime: FileTime,
    /// File size in bytes when the fingerprint was taken.
    pub size: u64,
}

impl FileFingerprint {
    /// Whether the file changed since this fingerprint was taken, judged against a
    /// fingerprint taken now.
    pub fn is_stale(&self, current: &FileFingerprint) -> (r: bool)
        ensures
            r == (self.mtime != current.mtime || self.size != current.size),
    {
        self.mtime != current.mtime || self.size != current.size
    }
}

/// Cache for incremental scanning.
pub struct ScanCache {
    cache_dir: String,
}

impl ScanCache {
    /// The directory the cache lives in.
    pub closed spec fn dir(&self) -> Seq<char> {
        self.cache_dir@
    }

    /// A cache rooted at the given directory (which the caller has created).
    pub fn new(cache_dir: &str) -> (r: ScanCache)
        ensures
            r.dir() == cache_dir@,
    {
        ScanCache { cache_dir: cache_dir.to_owned() }
    }

    /// The cache directory.
    pub fn cache_dir(&self) -> (r: &str)
        ensures
            r@ == self.dir(),
    {
        self.cache_dir.as_str()
    }

    /// Whether a file needs scanning again: no fingerprints are kept, so every file does.
    pub fn needs_rescan(&self, path: &str) -> (r: bool)
        ensures
            r,
    {
        true
    }
}

} // verus!
