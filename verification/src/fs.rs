//! What the kernel knows of files: handles with their capabilities, and the metadata
//! record that a file reports about itself.

use vstd::prelude::*;
use crate::marshal::{le_bytes, lemma_le_bytes_len, push_le, push_zeros, zeros};

verus! {

/// Number of bytes of the metadata record as a task sees it.
pub const STAT_SIZE: usize = 80;

/// A shared handle to an open file. The file itself lives outside the kernel core; the
/// handle names it and says what may be done with it.
#[derive(Clone, Copy, Debug, PartialEq, Eq, Structural)]
pub struct FileHandle {
    /// Names the file object among those that the file system has handed out.
    pub id: usize,
    pub readable: bool,
    pub writable: bool,
}

/// The metadata that a file reports about itself.
#[derive(Clone, Copy, Debug, PartialEq, Eq, Structural)]
pub struct Stat {
    /// Device that holds the file.
    pub dev: u64,
    /// Number of the inode.
    pub ino: u64,
    /// Kind of the file.
    pub mode: u32,
    /// Number of names that refer to the file.
    pub nlink: u32,
}

impl Stat {
    /// The record as a task sees it: the four fields, least significant byte first,
    /// followed by zero bytes up to the size of the record.
    pub open spec fn encoding(self) -> Seq<u8> {
        le_bytes(self.dev as nat, 8) + le_bytes(self.ino as nat, 8) + le_bytes(self.mode as nat, 4)
            + le_bytes(self.nlink as nat, 4) + zeros(56)
    }

    /// The record as a task sees it.
    pub fn to_bytes(&self) -> (bytes: Vec<u8>)
        ensures
            bytes@ == self.encoding(),
            bytes@.len() == STAT_SIZE,
    {
        let mut bytes: Vec<u8> = Vec::new();
        push_le(&mut bytes, self.dev, 8);
        push_le(&mut bytes, self.ino, 8);
        push_le(&mut bytes, self.mode as u64, 4);
        push_le(&mut bytes, self.nlink as u64, 4);
        push_zeros(&mut bytes, 56);
        proof {
            lemma_le_bytes_len(self.dev as nat, 8);
            lemma_le_bytes_len(self.ino as nat, 8);
            lemma_le_bytes_len(self.mode as nat, 4);
            lemma_le_bytes_len(self.nlink as nat, 4);
            assert(bytes@ =~= self.encoding());
        }
        bytes
    }
}

} // verus!
