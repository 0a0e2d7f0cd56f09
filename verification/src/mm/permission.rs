//! Access rights of a mapped region.

use vstd::prelude::*;

verus! {

/// Bit of the readable right in the flag byte of a region.
pub const PERM_R: u8 = 2;

/// Bit of the writable right.
pub const PERM_W: u8 = 4;

/// Bit of the executable right.
pub const PERM_X: u8 = 8;

/// Bit that opens a region to user mode.
pub const PERM_U: u8 = 16;

/// What a task may do with the pages of a region.
#[derive(Clone, Copy, Debug, PartialEq, Eq, Structural)]
pub struct MapPermission {
    pub readable: bool,
    pub writable: bool,
    pub executable: bool,
    pub user: bool,
}

impl MapPermission {
    /// The rights that a flag byte grants; bits that stand for no right are ignored.
    pub open spec fn of_bits(bits: u8) -> MapPermission {
        MapPermission {
            readable: bits & PERM_R != 0,
            writable: bits & PERM_W != 0,
            executable: bits & PERM_X != 0,
            user: bits & PERM_U != 0,
        }
    }

    /// The rights named by the three low bits of a mapping request (bit 0 readable,
    /// bit 1 writable, bit 2 executable), always open to user mode.
    pub open spec fn of_port(port: usize) -> MapPermission {
        MapPermission {
            readable: port & 1 != 0,
            writable: port & 2 != 0,
            executable: port & 4 != 0,
            user: true,
        }
    }

    /// Both sets of rights together.
    pub open spec fn spec_union(self, other: MapPermission) -> MapPermission {
        MapPermission {
            readable: self.readable || other.readable,
            writable: self.writable || other.writable,
            executable: self.executable || other.executable,
            user: self.user || other.user,
        }
    }

    /// No right at all.
    pub fn empty() -> (perm: MapPermission)
        ensures
            perm == (MapPermission { readable: false, writable: false, executable: false, user: false }),
    {
        MapPermission { readable: false, writable: false, executable: false, user: false }
    }

    /// User-mode access and nothing else.
    pub fn user_only() -> (perm: MapPermission)
        ensures
            perm == (MapPermission { readable: false, writable: false, executable: false, user: true }),
    {
        MapPermission { readable: false, writable: false, executable: false, user: true }
    }

    /// Reads a flag byte, dropping the bits that stand for no right.
    pub fn from_bits_truncate(bits: u8) -> (perm: MapPermission)
        ensures
            perm == Self::of_bits(bits),
    {
        MapPermission {
            readable: bits & PERM_R != 0,
            writable: bits & PERM_W != 0,
            executable: bits & PERM_X != 0,
            user: bits & PERM_U != 0,
        }
    }

    /// The flag byte of these rights.
    pub fn bits(&self) -> (bits: u8)
        ensures
            Self::of_bits(bits) == *self,
            bits & 0xE1 == 0,
    {
        let r: u8 = if self.readable { PERM_R } else { 0 };
        let w: u8 = if self.writable { PERM_W } else { 0 };
        let x: u8 = if self.executable { PERM_X } else { 0 };
        let u: u8 = if self.user { PERM_U } else { 0 };
        let bits: u8 = r | w | x | u;
        assert(bits & 0xE1 == 0 && (bits & 2 != 0) == (r == 2) && (bits & 4 != 0) == (w == 4)
            && (bits & 8 != 0) == (x == 8) && (bits & 16 != 0) == (u == 16)) by (bit_vector)
            requires
                bits == r | w | x | u,
                r == 0 || r == 2,
                w == 0 || w == 4,
                x == 0 || x == 8,
                u == 0 || u == 16,
        ;
        bits
    }

    /// Both sets of rights together.
    pub fn union(self, other: MapPermission) -> (perm: MapPermission)
        ensures
            perm == self.spec_union(other),
    {
        MapPermission {
            readable: self.readable || other.readable,
            writable: self.writable || other.writable,
            executable: self.executable || other.executable,
            user: self.user || other.user,
        }
    }
}

} // verus!
