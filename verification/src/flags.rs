//! Permission sets of mappings and the flag words of the system-call interface.

use vstd::prelude::*;

verus! {

/// The permissions of a mapping: a subset of {USER, READ, WRITE, EXECUTE}.
#[derive(Clone, Copy, Debug, PartialEq, Eq, Structural)]
pub struct MappingFlags {
    pub read: bool,
    pub write: bool,
    pub execute: bool,
    pub user: bool,
}

impl MappingFlags {
    /// The empty permission set.
    pub fn empty() -> (f: Self)
        ensures
            f == (MappingFlags { read: false, write: false, execute: false, user: false }),
    {
        MappingFlags { read: false, write: false, execute: false, user: false }
    }

    /// The set {USER}.
    pub fn user_only() -> (f: Self)
        ensures
            f == (MappingFlags { read: false, write: false, execute: false, user: true }),
    {
        MappingFlags { read: false, write: false, execute: false, user: true }
    }

    /// The set {USER} plus those of READ, WRITE and EXECUTE that are asked for.
    pub fn user_rwx(read: bool, write: bool, execute: bool) -> (f: Self)
        ensures
            f == (MappingFlags { read, write, execute, user: true }),
    {
        MappingFlags { read, write, execute, user: true }
    }

    /// Whether every permission of `other` is also in `self`.
    pub open spec fn spec_contains(self, other: Self) -> bool {
        &&& other.read ==> self.read
        &&& other.write ==> self.write
        &&& other.execute ==> self.execute
        &&& other.user ==> self.user
    }

    /// Whether every permission of `other` is also in `self`.
    pub fn contains(&self, other: Self) -> (r: bool)
        ensures
            r == self.spec_contains(other),
    {
        (!other.read || self.read) && (!other.write || self.write) && (!other.execute
            || self.execute) && (!other.user || self.user)
    }

    /// The union of two permission sets.
    pub open spec fn spec_union(self, other: Self) -> Self {
        MappingFlags {
            read: self.read || other.read,
            write: self.write || other.write,
            execute: self.execute || other.execute,
            user: self.user || other.user,
        }
    }

    /// The union of two permission sets.
    pub fn union(self, other: Self) -> (f: Self)
        ensures
            f == self.spec_union(other),
    {
        MappingFlags {
            read: self.read || other.read,
            write: self.write || other.write,
            execute: self.execute || other.execute,
            user: self.user || other.user,
        }
    }
}

/// Protection bits of `mmap` and `mprotect`: READ = 1, WRITE = 2, EXEC = 4.
#[derive(Clone, Copy, Debug, PartialEq, Eq, Structural)]
pub struct MMapProtFlag {
    pub bits: u32,
}

/// Pages may be read.
pub const PROT_READ: u32 = 1;

/// Pages may be written.
pub const PROT_WRITE: u32 = 2;

/// Pages may be executed.
pub const PROT_EXEC: u32 = 4;

impl MMapProtFlag {
    /// The word `bits` as flags, or `None` where it holds a bit that is not
    /// understood.
    pub open spec fn spec_from_bits(bits: u32) -> Option<Self> {
        if bits <= 7 {
            Some(MMapProtFlag { bits })
        } else {
            None
        }
    }

    /// The protection word `bits`, or `None` when it holds a bit other than
    /// READ, WRITE and EXEC.
    pub fn from_bits(bits: u32) -> (r: Option<Self>)
        ensures
            r == Self::spec_from_bits(bits),
    {
        if bits <= 7 {
            Some(MMapProtFlag { bits })
        } else {
            None
        }
    }

    /// Whether all bits of `flag` are set.
    pub open spec fn spec_contains(self, flag: u32) -> bool {
        self.bits & flag == flag
    }

    /// Whether all bits of `flag` are set.
    pub fn contains(&self, flag: u32) -> (r: bool)
        ensures
            r == self.spec_contains(flag),
    {
        self.bits & flag == flag
    }

    /// The mapping permissions that the protection word stands for: always
    /// USER, and READ, WRITE, EXECUTE as the bits say.
    pub open spec fn spec_mapping_flags(self) -> MappingFlags {
        MappingFlags {
            read: self.spec_contains(PROT_READ),
            write: self.spec_contains(PROT_WRITE),
            execute: self.spec_contains(PROT_EXEC),
            user: true,
        }
    }

    /// The mapping permissions that the protection word stands for.
    pub fn mapping_flags(&self) -> (f: MappingFlags)
        ensures
            f == self.spec_mapping_flags(),
    {
        MappingFlags::user_rwx(
            self.contains(PROT_READ),
            self.contains(PROT_WRITE),
            self.contains(PROT_EXEC),
        )
    }
}

/// Flag bits of `mmap`.
#[derive(Clone, Copy, Debug, PartialEq, Eq, Structural)]
pub struct MMapFlags {
    pub bits: u32,
}

/// Changes are shared.
pub const MAP_SHARED: u32 = 1;

/// Changes are private.
pub const MAP_PRIVATE: u32 = 2;

/// The mapping is placed exactly at the address given.
pub const MAP_FIXED: u32 = 16;

/// The mapping is not backed by a file.
pub const MAP_ANONYMOUS: u32 = 32;

/// No swap space is reserved.
pub const MAP_NORESERVE: u32 = 16384;

/// All flag bits of `mmap` that are understood.
pub const MAP_ALL: u32 = 16435;

impl MMapFlags {
    /// The word `bits` as flags, or `None` where it holds a bit that is not
    /// understood.
    pub open spec fn spec_from_bits(bits: u32) -> Option<Self> {
        if bits & !MAP_ALL == 0 {
            Some(MMapFlags { bits })
        } else {
            None
        }
    }

    /// The flag word `bits`, or `None` when it holds a bit that is not understood.
    pub fn from_bits(bits: u32) -> (r: Option<Self>)
        ensures
            r == Self::spec_from_bits(bits),
    {
        if bits & !MAP_ALL == 0 {
            Some(MMapFlags { bits })
        } else {
            None
        }
    }

    /// Whether all bits of `flag` are set.
    pub open spec fn spec_contains(self, flag: u32) -> bool {
        self.bits & flag == flag
    }

    /// Whether all bits of `flag` are set.
    pub fn contains(&self, flag: u32) -> (r: bool)
        ensures
            r == self.spec_contains(flag),
    {
        self.bits & flag == flag
    }
}

/// Flag bits of `clone`; only CLONE_VM is understood.
#[derive(Clone, Copy, Debug, PartialEq, Eq, Structural)]
pub struct CloneFlags {
    pub bits: u32,
}

/// Parent and child share the address space.
pub const CLONE_VM: u32 = 256;

impl CloneFlags {
    /// The word `bits` as flags, or `None` where it holds a bit that is not
    /// understood.
    pub open spec fn spec_from_bits(bits: u32) -> Option<Self> {
        if bits & !CLONE_VM == 0 {
            Some(CloneFlags { bits })
        } else {
            None
        }
    }

    /// The flag word `bits`, or `None` when it holds a bit other than CLONE_VM.
    pub fn from_bits(bits: u32) -> (r: Option<Self>)
        ensures
            r == Self::spec_from_bits(bits),
    {
        if bits & !CLONE_VM == 0 {
            Some(CloneFlags { bits })
        } else {
            None
        }
    }

    /// Whether all bits of `flag` are set.
    pub open spec fn spec_contains(self, flag: u32) -> bool {
        self.bits & flag == flag
    }

    /// Whether all bits of `flag` are set.
    pub fn contains(&self, flag: u32) -> (r: bool)
        ensures
            r == self.spec_contains(flag),
    {
        self.bits & flag == flag
    }
}

/// Flag bits of `openat`.
#[derive(Clone, Copy, Debug, PartialEq, Eq, Structural)]
pub struct OpenFlags {
    pub bits: u32,
}

/// Open for writing only.
pub const O_WRONLY: u32 = 1;

/// Open for reading and writing.
pub const O_RDWR: u32 = 2;

/// Create the file if it does not exist; accepted, without effect.
pub const O_CREAT: u32 = 64;

/// Do not follow a symbolic link; accepted, without effect.
pub const O_NOFOLLOW: u32 = 131072;

/// Close on exec; accepted, without effect.
pub const O_CLOEXEC: u32 = 524288;

/// All flag bits of `openat` that are understood.
pub const O_ALL: u32 = 655427;

impl OpenFlags {
    /// The word `bits` as flags, or `None` where it holds a bit that is not
    /// understood.
    pub open spec fn spec_from_bits(bits: u32) -> Option<Self> {
        if bits & !O_ALL == 0 {
            Some(OpenFlags { bits })
        } else {
            None
        }
    }

    /// The flag word `bits`, or `None` when it holds a bit that is not understood.
    pub fn from_bits(bits: u32) -> (r: Option<Self>)
        ensures
            r == Self::spec_from_bits(bits),
    {
        if bits & !O_ALL == 0 {
            Some(OpenFlags { bits })
        } else {
            None
        }
    }

    /// Whether all bits of `flag` are set.
    pub open spec fn spec_contains(self, flag: u32) -> bool {
        self.bits & flag == flag
    }

    /// Whether all bits of `flag` are set.
    pub fn contains(&self, flag: u32) -> (r: bool)
        ensures
            r == self.spec_contains(flag),
    {
        self.bits & flag == flag
    }

    /// Whether a file opened with these flags can be read: not when it is
    /// write-only.
    pub open spec fn spec_wants_read(self) -> bool {
        !self.spec_contains(O_WRONLY)
    }

    /// Whether a file opened with these flags can be written: when it is
    /// write-only or read-write.
    pub open spec fn spec_wants_write(self) -> bool {
        self.spec_contains(O_WRONLY) || self.spec_contains(O_RDWR)
    }

    /// Whether a file opened with these flags can be read.
    pub fn wants_read(&self) -> (r: bool)
        ensures
            r == self.spec_wants_read(),
    {
        !self.contains(O_WRONLY)
    }

    /// Whether a file opened with these flags can be written.
    pub fn wants_write(&self) -> (r: bool)
        ensures
            r == self.spec_wants_write(),
    {
        self.contains(O_WRONLY) || self.contains(O_RDWR)
    }
}

} // verus!
