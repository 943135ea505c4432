//! The system-call interface: numbers, argument records and the state that
//! the calls put out to.

use crate::fd::FileRef;
use crate::file::{spec_write, write_target, OpenFile};
use crate::kernel::Kernel;
use vstd::bytes::{
    spec_u32_to_le_bytes, spec_u64_from_le_bytes, spec_u64_to_le_bytes, u32_to_le_bytes,
    u64_from_le_bytes, u64_to_le_bytes,
};
use vstd::prelude::*;

verus! {

/// The system calls.
#[derive(Clone, Copy, Debug, PartialEq, Eq, Structural)]
pub enum SyscallId {
    Fcntl,
    IoCtl,
    OpenAt,
    Close,
    Read,
    Write,
    WriteV,
    Fstat,
    Exit,
    ExitGroup,
    SetTidAddress,
    SchedYield,
    GetTimeOfDay,
    MUnmap,
    Clone,
    MMap,
    MProtect,
}

impl SyscallId {
    /// The number of the system call.
    pub open spec fn spec_number(self) -> usize {
        match self {
            SyscallId::Fcntl => 25,
            SyscallId::IoCtl => 29,
            SyscallId::OpenAt => 56,
            SyscallId::Close => 57,
            SyscallId::Read => 63,
            SyscallId::Write => 64,
            SyscallId::WriteV => 66,
            SyscallId::Fstat => 80,
            SyscallId::Exit => 93,
            SyscallId::ExitGroup => 94,
            SyscallId::SetTidAddress => 96,
            SyscallId::SchedYield => 124,
            SyscallId::GetTimeOfDay => 169,
            SyscallId::MUnmap => 215,
            SyscallId::Clone => 220,
            SyscallId::MMap => 222,
            SyscallId::MProtect => 226,
        }
    }

    /// The system call with number `n`, if there is one.
    pub open spec fn spec_from_usize(n: usize) -> Option<Self> {
        if n == 25 {
            Some(SyscallId::Fcntl)
        } else if n == 29 {
            Some(SyscallId::IoCtl)
        } else if n == 56 {
            Some(SyscallId::OpenAt)
        } else if n == 57 {
            Some(SyscallId::Close)
        } else if n == 63 {
            Some(SyscallId::Read)
        } else if n == 64 {
            Some(SyscallId::Write)
        } else if n == 66 {
            Some(SyscallId::WriteV)
        } else if n == 80 {
            Some(SyscallId::Fstat)
        } else if n == 93 {
            Some(SyscallId::Exit)
        } else if n == 94 {
            Some(SyscallId::ExitGroup)
        } else if n == 96 {
            Some(SyscallId::SetTidAddress)
        } else if n == 124 {
            Some(SyscallId::SchedYield)
        } else if n == 169 {
            Some(SyscallId::GetTimeOfDay)
        } else if n == 215 {
            Some(SyscallId::MUnmap)
        } else if n == 220 {
            Some(SyscallId::Clone)
        } else if n == 222 {
            Some(SyscallId::MMap)
        } else if n == 226 {
            Some(SyscallId::MProtect)
        } else {
            None
        }
    }

    /// The number of the system call.
    pub fn number(self) -> (n: usize)
        ensures
            n == self.spec_number(),
            Self::spec_from_usize(n) == Some(self),
    {
        match self {
            SyscallId::Fcntl => 25,
            SyscallId::IoCtl => 29,
            SyscallId::OpenAt => 56,
            SyscallId::Close => 57,
            SyscallId::Read => 63,
            SyscallId::Write => 64,
            SyscallId::WriteV => 66,
            SyscallId::Fstat => 80,
            SyscallId::Exit => 93,
            SyscallId::ExitGroup => 94,
            SyscallId::SetTidAddress => 96,
            SyscallId::SchedYield => 124,
            SyscallId::GetTimeOfDay => 169,
            SyscallId::MUnmap => 215,
            SyscallId::Clone => 220,
            SyscallId::MMap => 222,
            SyscallId::MProtect => 226,
        }
    }

    /// The system call with number `n`, if there is one.
    pub fn from_usize(n: usize) -> (r: Option<Self>)
        ensures
            r == Self::spec_from_usize(n),
    {
        if n == 25 {
            Some(SyscallId::Fcntl)
        } else if n == 29 {
            Some(SyscallId::IoCtl)
        } else if n == 56 {
            Some(SyscallId::OpenAt)
        } else if n == 57 {
            Some(SyscallId::Close)
        } else if n == 63 {
            Some(SyscallId::Read)
        } else if n == 64 {
            Some(SyscallId::Write)
        } else if n == 66 {
            Some(SyscallId::WriteV)
        } else if n == 80 {
            Some(SyscallId::Fstat)
        } else if n == 93 {
            Some(SyscallId::Exit)
        } else if n == 94 {
            Some(SyscallId::ExitGroup)
        } else if n == 96 {
            Some(SyscallId::SetTidAddress)
        } else if n == 124 {
            Some(SyscallId::SchedYield)
        } else if n == 169 {
            Some(SyscallId::GetTimeOfDay)
        } else if n == 215 {
            Some(SyscallId::MUnmap)
        } else if n == 220 {
            Some(SyscallId::Clone)
        } else if n == 222 {
            Some(SyscallId::MMap)
        } else if n == 226 {
            Some(SyscallId::MProtect)
        } else {
            None
        }
    }
}

/// One entry of the array that `writev` takes: the address and the length
/// of a buffer. In memory it takes sixteen bytes.
#[derive(Clone, Copy, Debug, PartialEq, Eq, Structural)]
pub struct IoVec {
    pub io_v_base: usize,
    pub io_v_len: usize,
}

/// The entry that sixteen bytes of memory hold.
pub open spec fn spec_iovec(bytes: Seq<u8>) -> IoVec {
    IoVec {
        io_v_base: spec_u64_from_le_bytes(bytes.subrange(0, 8)) as usize,
        io_v_len: spec_u64_from_le_bytes(bytes.subrange(8, 16)) as usize,
    }
}

/// The entries that an array of `n` entries in memory holds.
pub open spec fn spec_iovecs(bytes: Seq<u8>, n: nat) -> Seq<IoVec> {
    Seq::new(n, |i: int| spec_iovec(bytes.subrange(16 * i, 16 * i + 16)))
}

/// The entry that sixteen bytes of memory hold.
pub fn parse_iovec(bytes: &[u8]) -> (v: IoVec)
    requires
        bytes@.len() == 16,
    ensures
        v == spec_iovec(bytes@),
{
    let base = u64_from_le_bytes(vstd::slice::slice_subrange(bytes, 0, 8));
    let len = u64_from_le_bytes(vstd::slice::slice_subrange(bytes, 8, 16));
    IoVec {
        io_v_base: #[verifier::truncate]
        (base as usize),
        io_v_len: #[verifier::truncate]
        (len as usize),
    }
}

/// The record that `fstat` stores. In memory it takes 120 bytes.
#[derive(Clone, Copy, Debug, PartialEq, Eq, Structural)]
pub struct Kstat {
    pub st_dev: u64,
    pub st_ino: u64,
    pub st_mode: u32,
    pub st_nlink: u32,
    pub st_uid: u32,
    pub st_gid: u32,
    pub st_rdev: u64,
    pub _pad0: u64,
    pub st_size: u64,
    pub st_blksize: u32,
    pub _pad1: u32,
    pub st_blocks: u64,
    pub st_atime_sec: isize,
    pub st_atime_nsec: isize,
    pub st_mtime_sec: isize,
    pub st_mtime_nsec: isize,
    pub st_ctime_sec: isize,
    pub st_ctime_nsec: isize,
}

impl Kstat {
    /// The record that `fstat` stores for every open file: device 1, inode
    /// 1, one link, and zero for all that is not known.
    pub open spec fn spec_placeholder() -> Kstat {
        Kstat {
            st_dev: 1,
            st_ino: 1,
            st_mode: 0,
            st_nlink: 1,
            st_uid: 0,
            st_gid: 0,
            st_rdev: 0,
            _pad0: 0,
            st_size: 0,
            st_blksize: 0,
            _pad1: 0,
            st_blocks: 0,
            st_atime_sec: 0,
            st_atime_nsec: 0,
            st_mtime_sec: 0,
            st_mtime_nsec: 0,
            st_ctime_sec: 0,
            st_ctime_nsec: 0,
        }
    }

    /// The record that `fstat` stores for every open file.
    pub fn placeholder() -> (k: Kstat)
        ensures
            k == Kstat::spec_placeholder(),
    {
        Kstat {
            st_dev: 1,
            st_ino: 1,
            st_mode: 0,
            st_nlink: 1,
            st_uid: 0,
            st_gid: 0,
            st_rdev: 0,
            _pad0: 0,
            st_size: 0,
            st_blksize: 0,
            _pad1: 0,
            st_blocks: 0,
            st_atime_sec: 0,
            st_atime_nsec: 0,
            st_mtime_sec: 0,
            st_mtime_nsec: 0,
            st_ctime_sec: 0,
            st_ctime_nsec: 0,
        }
    }

    /// The bytes of the record in memory: the fields in order, each with its
    /// lowest byte first.
    pub open spec fn spec_bytes(&self) -> Seq<u8> {
        spec_u64_to_le_bytes(self.st_dev) + spec_u64_to_le_bytes(self.st_ino)
            + spec_u32_to_le_bytes(self.st_mode) + spec_u32_to_le_bytes(self.st_nlink)
            + spec_u32_to_le_bytes(self.st_uid) + spec_u32_to_le_bytes(self.st_gid)
            + spec_u64_to_le_bytes(self.st_rdev) + spec_u64_to_le_bytes(self._pad0)
            + spec_u64_to_le_bytes(self.st_size) + spec_u32_to_le_bytes(self.st_blksize)
            + spec_u32_to_le_bytes(self._pad1) + spec_u64_to_le_bytes(self.st_blocks)
            + spec_u64_to_le_bytes(self.st_atime_sec as u64) + spec_u64_to_le_bytes(
            self.st_atime_nsec as u64,
        ) + spec_u64_to_le_bytes(self.st_mtime_sec as u64) + spec_u64_to_le_bytes(
            self.st_mtime_nsec as u64,
        ) + spec_u64_to_le_bytes(self.st_ctime_sec as u64) + spec_u64_to_le_bytes(
            self.st_ctime_nsec as u64,
        )
    }

    /// The bytes of the record in memory.
    pub fn to_bytes(&self) -> (out: Vec<u8>)
        ensures
            out@ == self.spec_bytes(),
    {
        let mut out: Vec<u8> = Vec::new();
        out.extend_from_slice(u64_to_le_bytes(self.st_dev).as_slice());
        out.extend_from_slice(u64_to_le_bytes(self.st_ino).as_slice());
        out.extend_from_slice(u32_to_le_bytes(self.st_mode).as_slice());
        out.extend_from_slice(u32_to_le_bytes(self.st_nlink).as_slice());
        out.extend_from_slice(u32_to_le_bytes(self.st_uid).as_slice());
        out.extend_from_slice(u32_to_le_bytes(self.st_gid).as_slice());
        out.extend_from_slice(u64_to_le_bytes(self.st_rdev).as_slice());
        out.extend_from_slice(u64_to_le_bytes(self._pad0).as_slice());
        out.extend_from_slice(u64_to_le_bytes(self.st_size).as_slice());
        out.extend_from_slice(u32_to_le_bytes(self.st_blksize).as_slice());
        out.extend_from_slice(u32_to_le_bytes(self._pad1).as_slice());
        out.extend_from_slice(u64_to_le_bytes(self.st_blocks).as_slice());
        out.extend_from_slice(
            u64_to_le_bytes(#[verifier::truncate] (self.st_atime_sec as u64)).as_slice(),
        );
        out.extend_from_slice(
            u64_to_le_bytes(#[verifier::truncate] (self.st_atime_nsec as u64)).as_slice(),
        );
        out.extend_from_slice(
            u64_to_le_bytes(#[verifier::truncate] (self.st_mtime_sec as u64)).as_slice(),
        );
        out.extend_from_slice(
            u64_to_le_bytes(#[verifier::truncate] (self.st_mtime_nsec as u64)).as_slice(),
        );
        out.extend_from_slice(
            u64_to_le_bytes(#[verifier::truncate] (self.st_ctime_sec as u64)).as_slice(),
        );
        out.extend_from_slice(
            u64_to_le_bytes(#[verifier::truncate] (self.st_ctime_nsec as u64)).as_slice(),
        );
        out
    }
}

/// What system calls put out to: the bytes on the console, the bytes of the
/// stored files, and the open files with their cursors.
pub struct Sinks {
    pub console: Seq<u8>,
    pub files: Seq<Seq<u8>>,
    pub open: Seq<OpenFile>,
}

/// What a write of `data` to `file` does to the sinks, and what it returns.
/// Bytes for standard output or standard error are appended to the console.
/// Bytes for an open file are stored at its cursor, which moves past them.
/// The result is the number of bytes. Nothing is written and the result is
/// -1 where there is no file or no data, or the open file cannot be written.
/// Standard input takes no bytes: a write to it is fatal, and the system
/// calls leave it out.
pub open spec fn sink_write(s: Sinks, file: Option<FileRef>, data: Option<Seq<u8>>) -> (Sinks, isize) {
    if file.is_none() || data.is_none() {
        (s, -1isize)
    } else {
        let d = data.unwrap();
        match file.unwrap() {
            FileRef::Stdin => (s, -1isize),
            FileRef::Stdout => (Sinks { console: s.console + d, ..s }, d.len() as isize),
            FileRef::Stderr => (Sinks { console: s.console + d, ..s }, d.len() as isize),
            FileRef::Open(h) => match write_target(s.files, s.open, h as int, d.len() as int) {
                Ok(f) => (
                    Sinks {
                        files: s.files.update(
                            f.node as int,
                            spec_write(s.files[f.node as int], f.pos as int, d),
                        ),
                        open: s.open.update(h as int, OpenFile { pos: (f.pos + d.len()) as u64, ..f }),
                        ..s
                    },
                    d.len() as isize,
                ),
                Err(e) => (s, -1isize),
            },
        }
    }
}

impl Kernel {
    /// The sinks as they are.
    pub open spec fn sinks(&self) -> Sinks {
        Sinks { console: self.console.output@, files: self.fs.files(), open: self.fs.open@ }
    }

    /// `post` differs from `self` in the sinks at most.
    pub open spec fn same_but_sinks(&self, post: Kernel) -> bool {
        &&& post == (Kernel { console: post.console, fs: post.fs, ..*self })
        &&& post.console.input@ == self.console.input@
        &&& post.fs.paths() == self.fs.paths()
    }
}

} // verus!
