use vstd::prelude::*;

verus! {

/// The failures the engine reports itself; I/O failures belong to the caller.
#[derive(Debug, PartialEq, Eq)]
pub enum Error {
    /// No snapshot carries this id.
    SnapshotIdNotFound(u32),
    /// The history holds no snapshot at all.
    NoSnapshots,
    /// No object is stored under this digest.
    ObjectNotFound(String),
    /// The object under this digest is not a readable manifest.
    MalformedManifest(String),
    /// A glob pattern of the exclusion list does not compile.
    InvalidGlob(String),
    /// Two different payloads share this digest; the later one was not stored.
    DigestCollision(String),
    /// The content under this digest or path is not UTF-8 text.
    NotText(String),
    /// The combination of arguments is not supported.
    Usage,
}

} // verus!
