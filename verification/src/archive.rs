//! What becomes of an entry of the content store when the store is packed
//! into an archive.

use vstd::prelude::*;

verus! {

/// How an entry of the store enters the archive.
#[derive(Clone, Copy, Debug, PartialEq, Eq, Structural)]
pub enum ArchiveEntry {
    /// A file: it is added with its content.
    File,
    /// A directory below the root: it is added by name.
    Directory,
    /// The root of the store: it is left out.
    Skip,
}

/// How an entry enters the archive, by what it is and by its path below the
/// root of the store.
pub open spec fn entry_kind(is_file: bool, name: Seq<char>) -> ArchiveEntry {
    if is_file {
        ArchiveEntry::File
    } else if name.len() > 0 {
        ArchiveEntry::Directory
    } else {
        ArchiveEntry::Skip
    }
}

/// Decides how an entry of the store enters the archive.
pub fn classify(is_file: bool, name: &str) -> (kind: ArchiveEntry)
    ensures
        kind == entry_kind(is_file, name@),
{
    if is_file {
        ArchiveEntry::File
    } else if name.unicode_len() > 0 {
        ArchiveEntry::Directory
    } else {
        ArchiveEntry::Skip
    }
}

} // verus!
