//! The file behind a file-backed area.

use crate::file::{spec_read, spec_resolve, spec_write, FileSystem, IoError, SeekFrom};
use vstd::prelude::*;

verus! {

/// A stored file together with a cursor of its own. Positioned reads and
/// writes are relative to the cursor and leave it where it is.
#[derive(Clone, Copy, Debug, PartialEq, Eq, Structural)]
pub struct MemBackend {
    pub file: usize,
    pub cursor: u64,
}

impl MemBackend {
    /// The absolute position that `pos` stands for, or the reason why there is none.
    pub open spec fn spec_position(&self, pos: SeekFrom, files: Seq<Seq<u8>>) -> Result<u64, IoError> {
        if self.file >= files.len() {
            Err(IoError::NotFound)
        } else {
            let p = spec_resolve(pos, self.cursor as int, files[self.file as int].len() as int);
            if 0 <= p <= u64::MAX {
                Ok(p as u64)
            } else {
                Err(IoError::InvalidInput)
            }
        }
    }

    /// What a read of up to `len` bytes at `pos` returns.
    pub open spec fn spec_read_from_seek(&self, pos: SeekFrom, len: int, files: Seq<Seq<u8>>) -> Result<
        Seq<u8>,
        IoError,
    > {
        match self.spec_position(pos, files) {
            Ok(p) => Ok(spec_read(files[self.file as int], p as int, len)),
            Err(e) => Err(e),
        }
    }

    /// Whether `len` bytes can be written at `pos`.
    pub open spec fn spec_can_write(&self, pos: SeekFrom, len: int, files: Seq<Seq<u8>>) -> bool {
        match self.spec_position(pos, files) {
            Ok(p) => p + len <= usize::MAX,
            Err(e) => false,
        }
    }

    /// A backend on the stored file `file` with the cursor at `offset`.
    pub fn new(file: usize, offset: u64) -> (b: Self)
        ensures
            b == (MemBackend { file, cursor: offset }),
    {
        MemBackend { file, cursor: offset }
    }

    /// A backend on the same file whose cursor is `delta` bytes further on.
    pub fn clone_with_delta(&self, delta: i64) -> (b: Self)
        requires
            0 <= self.cursor + delta <= u64::MAX,
        ensures
            b.file == self.file,
            b.cursor == self.cursor + delta,
    {
        let moved: i128 = self.cursor as i128 + delta as i128;
        MemBackend { file: self.file, cursor: moved as u64 }
    }

    /// The absolute position that `pos` stands for.
    pub fn position(&self, pos: SeekFrom, fs: &FileSystem) -> (r: Result<u64, IoError>)
        ensures
            r == self.spec_position(pos, fs.files()),
    {
        if self.file >= fs.nodes.len() {
            return Err(IoError::NotFound);
        }
        let len: usize = fs.nodes[self.file].data.len();
        let p: i128 = match pos {
            SeekFrom::Start(n) => n as i128,
            SeekFrom::End(d) => len as i128 + d as i128,
            SeekFrom::Current(d) => self.cursor as i128 + d as i128,
        };
        if p < 0 || p > u64::MAX as i128 {
            Err(IoError::InvalidInput)
        } else {
            Ok(p as u64)
        }
    }

    /// Reads up to `len` bytes at `pos`; fewer where the file ends before.
    pub fn read_from_seek(&self, pos: SeekFrom, len: usize, fs: &FileSystem) -> (r: Result<
        Vec<u8>,
        IoError,
    >)
        ensures
            match self.spec_read_from_seek(pos, len as int, fs.files()) {
                Ok(bytes) => r.is_ok() && r.unwrap()@ == bytes,
                Err(e) => r == Err::<Vec<u8>, IoError>(e),
            },
    {
        match self.position(pos, fs) {
            Ok(p) => fs.read_node(self.file, p, len),
            Err(e) => Err(e),
        }
    }

    /// Writes `buf` at `pos`, extending the file where it is too short.
    /// Returns the number of bytes written.
    pub fn write_to_seek(&self, pos: SeekFrom, buf: &[u8], fs: &mut FileSystem) -> (r: Result<
        usize,
        IoError,
    >)
        ensures
            final(fs).open@ == old(fs).open@,
            final(fs).paths() == old(fs).paths(),
            r.is_ok() <==> self.spec_can_write(pos, buf@.len() as int, old(fs).files()),
            r.is_err() ==> *final(fs) == *old(fs),
            r.is_ok() ==> {
                &&& r.unwrap() == buf@.len()
                &&& final(fs).files() == old(fs).files().update(
                    self.file as int,
                    spec_write(
                        old(fs).files()[self.file as int],
                        self.spec_position(pos, old(fs).files()).unwrap() as int,
                        buf@,
                    ),
                )
            },
    {
        match self.position(pos, fs) {
            Ok(p) => fs.write_node(self.file, p, buf),
            Err(e) => Err(e),
        }
    }
}

} // verus!
