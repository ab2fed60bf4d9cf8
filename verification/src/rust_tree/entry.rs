//! One entry of a directory, as the filter, the sort policy and the renderer
//! read it: plain values, whether they come from the file system or from a
//! parsed listing.

use vstd::prelude::*;

verus! {

/// What kind of object an entry is. A symbolic link is a `Symlink` whatever it
/// points to.
#[derive(Clone, Copy, Debug, PartialEq, Eq, Structural)]
pub enum EntryKind {
    Directory,
    Symlink,
    File,
    Other,
}

/// A point in time: `secs` whole seconds after 1970-01-01 00:00:00 UTC
/// (negative before it) and `nanos` nanoseconds more.
#[derive(Clone, Copy, Debug, PartialEq, Eq, Structural)]
pub struct Timestamp {
    pub secs: i64,
    pub nanos: u32,
}

/// One entry of a directory.
#[derive(Clone, Debug)]
pub struct Entry {
    /// The bare name.
    pub name: String,
    /// The path under which the entry is shown when full paths are asked for.
    pub path: String,
    pub kind: EntryKind,
    /// Whether the path names a directory once symbolic links are followed.
    /// The filter goes by this, descent by `kind`.
    pub target_is_dir: bool,
    /// The size in bytes, where it is known.
    pub size: Option<u64>,
    /// The time of the last modification, where it is known.
    pub modified: Option<Timestamp>,
    /// The permission bits, on platforms that have them.
    pub mode: Option<u32>,
    /// Whether the file can be executed.
    pub executable: bool,
}

/// An entry as the contracts speak of it: its texts as character sequences.
pub struct EntryView {
    pub name: Seq<char>,
    pub path: Seq<char>,
    pub kind: EntryKind,
    pub target_is_dir: bool,
    pub size: Option<u64>,
    pub modified: Option<Timestamp>,
    pub mode: Option<u32>,
    pub executable: bool,
}

impl EntryView {
    /// Whether the entry itself is a directory.
    pub open spec fn is_dir(&self) -> bool {
        self.kind == EntryKind::Directory
    }
}

impl View for Entry {
    type V = EntryView;

    open spec fn view(&self) -> EntryView {
        EntryView {
            name: self.name@,
            path: self.path@,
            kind: self.kind,
            target_is_dir: self.target_is_dir,
            size: self.size,
            modified: self.modified,
            mode: self.mode,
            executable: self.executable,
        }
    }
}

/// The views of the entries of a list, in its order.
pub open spec fn entry_views(v: Seq<Entry>) -> Seq<EntryView> {
    Seq::new(v.len(), |i: int| v[i]@)
}

impl Entry {
    /// Whether the entry is a directory.
    pub fn is_directory(&self) -> (r: bool)
        ensures
            r == self@.is_dir(),
    {
        match self.kind {
            EntryKind::Directory => true,
            _ => false,
        }
    }

    /// A copy of the entry, field by field.
    pub fn duplicate(&self) -> (r: Entry)
        ensures
            r@ == self@,
    {
        Entry {
            name: self.name.clone(),
            path: self.path.clone(),
            kind: self.kind,
            target_is_dir: self.target_is_dir,
            size: self.size,
            modified: self.modified,
            mode: self.mode,
            executable: self.executable,
        }
    }
}

} // verus!
