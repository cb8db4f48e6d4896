//! Open-file values as stored in a reference-counted file table. The
//! file table is a flat-array pool of `File` slots; reading, writing and
//! the underlying pipe and inode objects live outside this crate, so a
//! file here carries plain identifiers for them.

use crate::arena::ArenaObject;
use crate::arena::Rc;
use crate::array_arena::ArrayArena;
use vstd::prelude::*;

verus! {

/// What an open file refers to. Pipes and inodes are outside objects;
/// a value here names them by identifier and keeps the bookkeeping the
/// file table itself owns (the read offset, the device major number).
#[derive(Clone, Copy, Debug, PartialEq, Eq, Structural)]
pub enum FileType {
    NoFile,
    Pipe { pipe: usize },
    Inode { ip: usize, off: u32 },
    Device { ip: usize, major: u16 },
}

/// One open file: what it refers to and how it may be used.
#[derive(Clone, Copy, Debug, PartialEq, Eq, Structural)]
pub struct File {
    pub typ: FileType,
    pub readable: bool,
    pub writable: bool,
}

/// An owning, counted reference to a slot of the open-file table.
pub type RcFile = Rc<ArrayArena<File>>;

impl File {
    /// An open file of the given kind and permissions.
    pub fn new(typ: FileType, readable: bool, writable: bool) -> (f: Self)
        ensures
            f == (File { typ, readable, writable }),
    {
        File { typ, readable, writable }
    }
}

impl ArenaObject for File {
    /// Closing the underlying pipe or inode is the kernel's work outside
    /// this crate; the stored value itself is left as it stands.
    open spec fn finalized(pre: Self, post: Self) -> bool {
        post == pre
    }

    fn finalize(&mut self) {
    }
}

} // verus!
