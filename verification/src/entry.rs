//! What a traversal reports of one file or directory.

use vstd::prelude::*;

verus! {

/// One file or directory as the traversal found it: where it lies, and the
/// metadata that a listing shows.
#[derive(Debug)]
pub struct Entry {
    /// The path, relative to the traversal root and beginning with it.
    pub path: String,
    /// Whether this is a directory.
    pub is_dir: bool,
    /// The size in bytes that the file system reports.
    pub len: u64,
    /// Last modification, in whole seconds since 1970-01-01 00:00:00 UTC.
    pub modified_secs: i64,
    /// The nanoseconds of the last modification beyond `modified_secs`.
    pub modified_nanos: u32,
}

/// The mathematical value of an [`Entry`].
pub struct EntryView {
    pub path: Seq<char>,
    pub is_dir: bool,
    pub len: u64,
    pub modified_secs: i64,
    pub modified_nanos: u32,
}

impl View for Entry {
    type V = EntryView;

    open spec fn view(&self) -> EntryView {
        EntryView {
            path: self.path@,
            is_dir: self.is_dir,
            len: self.len,
            modified_secs: self.modified_secs,
            modified_nanos: self.modified_nanos,
        }
    }
}

/// The values of a sequence of entries, in order.
pub open spec fn entry_views(entries: Seq<Entry>) -> Seq<EntryView> {
    Seq::new(entries.len(), |i: int| entries[i]@)
}

impl Entry {
    /// An entry with the given path and metadata.
    pub fn new(path: String, is_dir: bool, len: u64, modified_secs: i64, modified_nanos: u32) -> (e:
        Entry)
        ensures
            e.path == path,
            e.is_dir == is_dir,
            e.len == len,
            e.modified_secs == modified_secs,
            e.modified_nanos == modified_nanos,
    {
        Entry { path, is_dir, len, modified_secs, modified_nanos }
    }

    /// A second entry with the same value.
    pub fn duplicate(&self) -> (e: Entry)
        ensures
            e == *self,
    {
        Entry {
            path: self.path.clone(),
            is_dir: self.is_dir,
            len: self.len,
            modified_secs: self.modified_secs,
            modified_nanos: self.modified_nanos,
        }
    }
}

} // verus!
