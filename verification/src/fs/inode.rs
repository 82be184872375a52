//! Inodes as an in-memory cache of a disk file system holds them.
use vstd::prelude::*;

verus! {

/// Inode number.
pub type InodeNum = u32;

/// The index of a block device, unique and immutable.
pub type Blkid = u32;

/// What is known of a file besides its contents.
#[derive(Clone, Copy, Debug, PartialEq, Eq, Structural)]
pub struct Stat {
    pub link_count: usize,
}

/// What an inode holds: a directory lists the inodes of its children.
pub enum InodeData {
    File,
    Directory(Vec<InodeNum>),
    Link,
    Unallocated,
}

/// An inode in memory: its number and name, what it holds, the device it is
/// on, and whether it changed since it was read.
pub struct MemInode {
    pub ino: u32,
    pub name: String,
    pub data: InodeData,
    pub blkid: Blkid,
    pub stat: Stat,
    pub dirty: bool,
}

impl MemInode {
    /// What the inode holds.
    pub fn read_data(&self) -> (r: &InodeData)
        ensures
            r == &self.data,
    {
        &self.data
    }

    /// Whether the inode is a directory.
    pub fn is_directory(&self) -> (r: bool)
        ensures
            r == (self.data is Directory),
    {
        match &self.data {
            InodeData::Directory(_) => true,
            _ => false,
        }
    }

    /// The inodes of a directory's children as the disk lists them; `None`
    /// for anything but a directory.
    pub fn get_disk_children(&self) -> (r: Option<&Vec<InodeNum>>)
        ensures
            match self.data {
                InodeData::Directory(v) => r == Some(&v),
                _ => r is None,
            },
    {
        match &self.data {
            InodeData::Directory(v) => Some(v),
            _ => None,
        }
    }

    /// The inode's number.
    pub fn ino(&self) -> (r: InodeNum)
        ensures
            r == self.ino,
    {
        self.ino
    }

    /// The inode's name.
    pub fn name(&self) -> (r: &str)
        ensures
            r@ == self.name@,
    {
        self.name.as_str()
    }

    /// Rename the inode.
    pub fn set_name(&mut self, name: String)
        ensures
            final(self).name@ == name@,
            final(self).ino == old(self).ino,
            final(self).data == old(self).data,
            final(self).blkid == old(self).blkid,
            final(self).stat == old(self).stat,
            final(self).dirty == old(self).dirty,
    {
        self.name = name;
    }

    /// The device the inode is on.
    pub fn blkid(&self) -> (r: Blkid)
        ensures
            r == self.blkid,
    {
        self.blkid
    }

    /// What is known of the file besides its contents.
    pub fn stat(&self) -> (r: &Stat)
        ensures
            *r == self.stat,
    {
        &self.stat
    }
}

} // verus!
