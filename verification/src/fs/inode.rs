//! Inode types.

use vstd::prelude::*;
use crate::fs::vfs::FsError;

verus! {

#[derive(Debug, Clone, Copy, PartialEq, Eq, Structural)]
pub enum FileType {
    Regular,
    Directory,
}

/// Reference to an inode: its slot in the filesystem's node table. A
/// slot stays valid after its name is removed from the tree, so open
/// handles keep working, as with a reference count.
pub type InodeRef = usize;

/// What a filesystem node offers on its own. Creating and removing
/// entries needs the filesystem's node table and lives there.
pub trait Inode {
    fn ftype(&self) -> FileType;

    fn name(&self) -> String;

    fn size(&self) -> usize;

    /// Copy bytes starting at `offset` into `buf`; returns how many.
    fn read_at(&self, offset: usize, buf: &mut [u8]) -> Result<usize, FsError>;

    /// Write `buf` at `offset`, growing the file as needed; returns how
    /// many bytes were written.
    fn write_at(&mut self, offset: usize, buf: &[u8]) -> Result<usize, FsError>
        requires
            offset + buf@.len() <= usize::MAX,
    ;

    /// Names of the entries of a directory.
    fn list(&self) -> Vec<String>;

    /// The entry of a directory called `name`.
    fn lookup(&self, name: &str) -> Option<InodeRef>;
}

} // verus!
