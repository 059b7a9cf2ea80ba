//! The entries of a directory: files and directories.

use crate::vfat::cluster::Cluster;
use crate::vfat::dir::Dir;
use crate::vfat::file::File;
use crate::vfat::metadata::{Metadata, MetadataView};
use vstd::prelude::*;

verus! {

#[derive(Debug)]
pub enum Entry {
    File(File),
    Dir(Dir),
}

/// What a directory says of one of its entries.
pub struct EntryView {
    /// The entry is a directory, not a file.
    pub is_dir: bool,
    pub metadata: MetadataView,
    /// The cluster in which the contents of the entry start.
    pub start_cluster: Cluster,
}

impl View for Entry {
    type V = EntryView;

    open spec fn view(&self) -> EntryView {
        match self {
            Entry::File(file) => EntryView {
                is_dir: false,
                metadata: file.metadata@,
                start_cluster: file.start_cluster,
            },
            Entry::Dir(dir) => EntryView {
                is_dir: true,
                metadata: dir.metadata@,
                start_cluster: dir.start_cluster,
            },
        }
    }
}

impl Entry {
    /// A file entry that has not been read yet: it stands at offset 0 and
    /// holds no data. A directory entry is always fresh.
    pub open spec fn is_fresh(&self) -> bool {
        match self {
            Entry::File(file) => file.offset == 0 && file.data is None,
            Entry::Dir(_) => true,
        }
    }

    /// The name of the file or directory corresponding to this entry.
    pub fn name(&self) -> (r: &str)
        ensures
            r@ == self@.metadata.name,
    {
        self.metadata().name.as_str()
    }

    /// The metadata associated with the entry.
    pub fn metadata(&self) -> (r: &Metadata)
        ensures
            r@ == self@.metadata,
            match self {
                Entry::File(file) => *r == file.metadata,
                Entry::Dir(dir) => *r == dir.metadata,
            },
    {
        match self {
            Entry::Dir(dir) => &dir.metadata,
            Entry::File(file) => &file.metadata,
        }
    }

    /// If `self` is a file, returns `Some` of a reference to the file.
    /// Otherwise returns `None`.
    pub fn as_file(&self) -> (r: Option<&File>)
        ensures
            match self {
                Entry::File(file) => r == Some(file),
                Entry::Dir(_) => r is None,
            },
    {
        match self {
            Entry::File(file) => Some(file),
            Entry::Dir(_) => None,
        }
    }

    /// If `self` is a directory, returns `Some` of a reference to the
    /// directory. Otherwise returns `None`.
    pub fn as_dir(&self) -> (r: Option<&Dir>)
        ensures
            match self {
                Entry::Dir(dir) => r == Some(dir),
                Entry::File(_) => r is None,
            },
    {
        match self {
            Entry::Dir(dir) => Some(dir),
            Entry::File(_) => None,
        }
    }

    /// If `self` is a file, returns `Some` of the file. Otherwise returns
    /// `None`.
    pub fn into_file(self) -> (r: Option<File>)
        ensures
            match self {
                Entry::File(file) => r == Some(file),
                Entry::Dir(_) => r is None,
            },
    {
        match self {
            Entry::File(file) => Some(file),
            Entry::Dir(_) => None,
        }
    }

    /// If `self` is a directory, returns `Some` of the directory. Otherwise
    /// returns `None`.
    pub fn into_dir(self) -> (r: Option<Dir>)
        ensures
            match self {
                Entry::Dir(dir) => r == Some(dir),
                Entry::File(_) => r is None,
            },
    {
        match self {
            Entry::Dir(dir) => Some(dir),
            Entry::File(_) => None,
        }
    }
}

} // verus!
