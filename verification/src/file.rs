//! Files: the stored bytes of each file, and the open files that descriptors
//! and mappings refer to.

use vstd::prelude::*;

verus! {

/// Why a file operation was refused.
#[derive(Clone, Copy, Debug, PartialEq, Eq, Structural)]
pub enum IoError {
    /// The file or the open file does not exist.
    NotFound,
    /// The position lies before the start of the file or outside what can be addressed.
    InvalidInput,
    /// The open file does not permit the operation.
    PermissionDenied,
}

/// A position in a file: absolute, relative to the end of the file, or
/// relative to a cursor.
#[derive(Clone, Copy, Debug, PartialEq, Eq, Structural)]
pub enum SeekFrom {
    Start(u64),
    End(i64),
    Current(i64),
}

/// The bytes of `data` from `pos` on, `len` of them at most.
pub open spec fn spec_read(data: Seq<u8>, pos: int, len: int) -> Seq<u8> {
    if pos >= data.len() {
        Seq::<u8>::empty()
    } else if pos + len >= data.len() {
        data.subrange(pos, data.len() as int)
    } else {
        data.subrange(pos, pos + len)
    }
}

/// The file `data` after `src` has been stored at `pos`: a file that was
/// shorter than `pos` is first extended with zero bytes.
pub open spec fn spec_write(data: Seq<u8>, pos: int, src: Seq<u8>) -> Seq<u8> {
    Seq::new(
        if pos + src.len() > data.len() {
            (pos + src.len()) as nat
        } else {
            data.len()
        },
        |i: int|
            if pos <= i < pos + src.len() {
                src[i - pos]
            } else if i < data.len() {
                data[i]
            } else {
                0u8
            },
    )
}

/// The absolute position that `pos` stands for in a file of `len` bytes with
/// the cursor at `cursor`.
pub open spec fn spec_resolve(pos: SeekFrom, cursor: int, len: int) -> int {
    match pos {
        SeekFrom::Start(n) => n as int,
        SeekFrom::End(d) => len + d,
        SeekFrom::Current(d) => cursor + d,
    }
}

/// The open file that a read of up to `len` bytes from the open file
/// `handle` reads from, or the reason why nothing is read.
pub open spec fn read_source(files: Seq<Seq<u8>>, open: Seq<OpenFile>, handle: int) -> Result<
    OpenFile,
    IoError,
> {
    if !(0 <= handle < open.len()) {
        Err(IoError::NotFound)
    } else if !open[handle].readable {
        Err(IoError::PermissionDenied)
    } else if open[handle].node >= files.len() {
        Err(IoError::NotFound)
    } else {
        Ok(open[handle])
    }
}

/// The open file that a write of `len` bytes to the open file `handle`
/// writes to, or the reason why nothing is written.
pub open spec fn write_target(
    files: Seq<Seq<u8>>,
    open: Seq<OpenFile>,
    handle: int,
    len: int,
) -> Result<OpenFile, IoError> {
    if !(0 <= handle < open.len()) {
        Err(IoError::NotFound)
    } else if !open[handle].writable {
        Err(IoError::PermissionDenied)
    } else if open[handle].node >= files.len() {
        Err(IoError::NotFound)
    } else if open[handle].pos + len > usize::MAX {
        Err(IoError::InvalidInput)
    } else {
        Ok(open[handle])
    }
}

/// One stored file.
pub struct FileNode {
    pub path: Vec<u8>,
    pub data: Vec<u8>,
}

/// One open file: a stored file, a cursor into it and what may be done with it.
#[derive(Clone, Copy, Debug, PartialEq, Eq, Structural)]
pub struct OpenFile {
    pub node: usize,
    pub pos: u64,
    pub readable: bool,
    pub writable: bool,
}

/// The stored files and the open files.
pub struct FileSystem {
    pub nodes: Vec<FileNode>,
    pub open: Vec<OpenFile>,
}

/// Whether two byte strings are equal.
pub fn bytes_eq(a: &[u8], b: &[u8]) -> (r: bool)
    ensures
        r == (a@ == b@),
{
    if a.len() != b.len() {
        return false;
    }
    let mut i: usize = 0;
    while i < a.len()
        invariant
            i <= a@.len(),
            a@.len() == b@.len(),
            forall|j: int| 0 <= j < i ==> a@[j] == b@[j],
        decreases a@.len() - i,
    {
        if a[i] != b[i] {
            return false;
        }
        i += 1;
    }
    assert(a@ =~= b@);
    true
}

/// A copy of the bytes of `data` from `from` up to `to`.
pub fn copy_range(data: &[u8], from: usize, to: usize) -> (out: Vec<u8>)
    requires
        from <= to <= data@.len(),
    ensures
        out@ == data@.subrange(from as int, to as int),
{
    let mut out: Vec<u8> = Vec::new();
    let mut i: usize = from;
    while i < to
        invariant
            from <= i <= to <= data@.len(),
            out@ == data@.subrange(from as int, i as int),
        decreases to - i,
    {
        out.push(data[i]);
        i += 1;
        assert(out@ =~= data@.subrange(from as int, i as int));
    }
    out
}

impl FileSystem {
    /// The bytes of every stored file, by file number.
    pub open spec fn files(&self) -> Seq<Seq<u8>> {
        Seq::new(self.nodes@.len(), |i: int| self.nodes@[i].data@)
    }

    /// The path of every stored file, by file number.
    pub open spec fn paths(&self) -> Seq<Seq<u8>> {
        Seq::new(self.nodes@.len(), |i: int| self.nodes@[i].path@)
    }

    /// The path of the stored file `node`.
    pub open spec fn path_of(&self, node: int) -> Seq<u8> {
        self.nodes@[node].path@
    }

    /// The first stored file whose path is `path`, among the first `upto`.
    pub open spec fn spec_lookup_upto(&self, path: Seq<u8>, upto: int) -> Option<usize>
        decreases upto,
    {
        if upto <= 0 {
            None
        } else {
            match self.spec_lookup_upto(path, upto - 1) {
                Some(i) => Some(i),
                None => if self.path_of(upto - 1) == path {
                    Some((upto - 1) as usize)
                } else {
                    None
                },
            }
        }
    }

    /// The first stored file whose path is `path`.
    pub open spec fn spec_lookup(&self, path: Seq<u8>) -> Option<usize> {
        self.spec_lookup_upto(path, self.nodes@.len() as int)
    }

    /// No stored files and no open files.
    pub fn new() -> (fs: Self)
        ensures
            fs.nodes@.len() == 0,
            fs.open@.len() == 0,
    {
        FileSystem { nodes: Vec::new(), open: Vec::new() }
    }

    /// Stores a new file and returns its number.
    pub fn create(&mut self, path: Vec<u8>, data: Vec<u8>) -> (node: usize)
        ensures
            node == old(self).nodes@.len(),
            final(self).open@ == old(self).open@,
            final(self).files() == old(self).files().push(data@),
            final(self).paths() == old(self).paths().push(path@),
    {
        let node: usize = self.nodes.len();
        self.nodes.push(FileNode { path, data });
        assert(self.files() =~= old(self).files().push(data@));
        assert(self.paths() =~= old(self).paths().push(path@));
        node
    }

    /// The first stored file whose path is `path`.
    pub fn lookup(&self, path: &[u8]) -> (r: Option<usize>)
        ensures
            r == self.spec_lookup(path@),
            r.is_some() ==> r.unwrap() < self.nodes@.len() && self.path_of(r.unwrap() as int)
                == path@,
    {
        let mut i: usize = 0;
        while i < self.nodes.len()
            invariant
                i <= self.nodes@.len(),
                self.spec_lookup_upto(path@, i as int).is_none(),
            decreases self.nodes@.len() - i,
        {
            if bytes_eq(self.nodes[i].path.as_slice(), path) {
                assert(self.spec_lookup_upto(path@, i + 1) == Some(i));
                proof {
                    self.lemma_lookup_stable(path@, i + 1, self.nodes@.len() as int);
                }
                return Some(i);
            }
            i += 1;
        }
        None
    }

    /// Once a file is found among the first `lo`, looking further finds the same.
    pub proof fn lemma_lookup_stable(&self, path: Seq<u8>, lo: int, hi: int)
        requires
            0 <= lo <= hi,
            self.spec_lookup_upto(path, lo).is_some(),
        ensures
            self.spec_lookup_upto(path, hi) == self.spec_lookup_upto(path, lo),
        decreases hi - lo,
    {
        if lo < hi {
            self.lemma_lookup_stable(path, lo, hi - 1);
        }
    }

    /// Reads up to `len` bytes of the stored file `node`, from position `pos`
    /// on; fewer where the file ends before.
    pub fn read_node(&self, node: usize, pos: u64, len: usize) -> (r: Result<Vec<u8>, IoError>)
        ensures
            r.is_ok() <==> node < self.files().len(),
            r.is_ok() ==> r.unwrap()@ == spec_read(self.files()[node as int], pos as int, len as int),
            r.is_err() ==> r.unwrap_err() == IoError::NotFound,
    {
        if node >= self.nodes.len() {
            return Err(IoError::NotFound);
        }
        let data = &self.nodes[node].data;
        let n: usize = data.len();
        if pos >= n as u64 {
            return Ok(Vec::new());
        }
        let from: usize = pos as usize;
        let to: usize = if len >= n - from {
            n
        } else {
            from + len
        };
        Ok(copy_range(data.as_slice(), from, to))
    }

    /// Stores `src` in the stored file `node` at position `pos`, extending the
    /// file where it is too short. Returns the number of bytes stored.
    pub fn write_node(&mut self, node: usize, pos: u64, src: &[u8]) -> (r: Result<usize, IoError>)
        ensures
            final(self).open@ == old(self).open@,
            final(self).paths() == old(self).paths(),
            r == (if node >= old(self).nodes@.len() {
                Err::<usize, IoError>(IoError::NotFound)
            } else if pos + src@.len() > usize::MAX {
                Err(IoError::InvalidInput)
            } else {
                Ok(src@.len() as usize)
            }),
            r.is_err() ==> *final(self) == *old(self),
            r.is_ok() ==> final(self).files() == old(self).files().update(
                node as int,
                spec_write(old(self).files()[node as int], pos as int, src@),
            ),
    {
        if node >= self.nodes.len() {
            return Err(IoError::NotFound);
        }
        if pos > usize::MAX as u64 || src.len() > usize::MAX - pos as usize {
            return Err(IoError::InvalidInput);
        }
        let start: usize = pos as usize;
        let n: usize = src.len();
        let mut data: Vec<u8> = Vec::new();
        let ghost before = self.nodes@[node as int].data@;
        let mut i: usize = 0;
        let old_len: usize = self.nodes[node].data.len();
        let new_len: usize = if start + n > old_len {
            start + n
        } else {
            old_len
        };
        while i < new_len
            invariant
                i <= new_len,
                node < self.nodes@.len(),
                self.nodes@ == old(self).nodes@,
                before == old(self).nodes@[node as int].data@,
                old_len == before.len(),
                n == src@.len(),
                start == pos,
                start + n <= usize::MAX,
                new_len == (if start + n > old_len {
                    start + n
                } else {
                    old_len as int
                }),
                data@.len() == i,
                forall|j: int| 0 <= j < i ==> data@[j] == spec_write(before, pos as int, src@)[j],
            decreases new_len - i,
        {
            let b: u8 = if start <= i && i - start < n {
                src[i - start]
            } else if i < old_len {
                self.nodes[node].data[i]
            } else {
                0u8
            };
            data.push(b);
            i += 1;
        }
        assert(data@ =~= spec_write(before, pos as int, src@));
        let path = copy_range(self.nodes[node].path.as_slice(), 0, self.nodes[node].path.len());
        assert(path@ =~= self.nodes@[node as int].path@);
        self.nodes[node] = FileNode { path, data };
        assert(self.paths() =~= old(self).paths());
        assert(self.files() =~= old(self).files().update(
            node as int,
            spec_write(old(self).files()[node as int], pos as int, src@),
        ));
        Ok(n)
    }

    /// The open file with number `handle`.
    pub open spec fn spec_handle(&self, handle: int) -> Option<OpenFile> {
        if 0 <= handle < self.open@.len() {
            Some(self.open@[handle])
        } else {
            None
        }
    }

    /// The open file with number `handle`.
    pub fn handle(&self, handle: usize) -> (r: Option<OpenFile>)
        ensures
            r == self.spec_handle(handle as int),
    {
        if handle < self.open.len() {
            Some(self.open[handle])
        } else {
            None
        }
    }

    /// Opens the stored file `node` with the cursor at its start. Returns
    /// the number of the open file.
    pub fn open_handle(&mut self, node: usize, readable: bool, writable: bool) -> (handle: usize)
        ensures
            handle == old(self).open@.len(),
            final(self).open@ == old(self).open@.push(
                OpenFile { node, pos: 0, readable, writable },
            ),
            final(self).nodes@ == old(self).nodes@,
    {
        let handle: usize = self.open.len();
        self.open.push(OpenFile { node, pos: 0, readable, writable });
        handle
    }

    /// Reads up to `len` bytes from the open file `handle` at its cursor, and
    /// moves the cursor past them.
    pub fn read_handle(&mut self, handle: usize, len: usize) -> (r: Result<Vec<u8>, IoError>)
        ensures
            final(self).nodes@ == old(self).nodes@,
            final(self).open@.len() == old(self).open@.len(),
            match read_source(old(self).files(), old(self).open@, handle as int) {
                Ok(f) => {
                    let bytes = spec_read(old(self).files()[f.node as int], f.pos as int, len as int);
                    &&& r.is_ok()
                    &&& r.unwrap()@ == bytes
                    &&& final(self).open@ == old(self).open@.update(
                        handle as int,
                        OpenFile { pos: (f.pos + bytes.len()) as u64, ..f },
                    )
                },
                Err(e) => r == Err::<Vec<u8>, IoError>(e) && *final(self) == *old(self),
            },
    {
        if handle >= self.open.len() {
            return Err(IoError::NotFound);
        }
        let f = self.open[handle];
        if !f.readable {
            return Err(IoError::PermissionDenied);
        }
        match self.read_node(f.node, f.pos, len) {
            Ok(bytes) => {
                let file_len: usize = self.nodes[f.node].data.len();
                assert(bytes@.len() == 0 || f.pos + bytes@.len() <= file_len);
                let moved: u64 = f.pos + bytes.len() as u64;
                self.open[handle] = OpenFile { pos: moved, ..f };
                Ok(bytes)
            },
            Err(e) => Err(e),
        }
    }

    /// Writes `src` to the open file `handle` at its cursor, and moves the
    /// cursor past it. Returns the number of bytes written.
    pub fn write_handle(&mut self, handle: usize, src: &[u8]) -> (r: Result<usize, IoError>)
        ensures
            final(self).paths() == old(self).paths(),
            final(self).open@.len() == old(self).open@.len(),
            match write_target(old(self).files(), old(self).open@, handle as int, src@.len() as int) {
                Ok(f) => {
                    &&& r == Ok::<usize, IoError>(src@.len() as usize)
                    &&& final(self).files() == old(self).files().update(
                        f.node as int,
                        spec_write(old(self).files()[f.node as int], f.pos as int, src@),
                    )
                    &&& final(self).open@ == old(self).open@.update(
                        handle as int,
                        OpenFile { pos: (f.pos + src@.len()) as u64, ..f },
                    )
                },
                Err(e) => {
                    &&& r == Err::<usize, IoError>(e)
                    &&& *final(self) == *old(self)
                },
            },
    {
        if handle >= self.open.len() {
            return Err(IoError::NotFound);
        }
        let f = self.open[handle];
        if !f.writable {
            return Err(IoError::PermissionDenied);
        }
        match self.write_node(f.node, f.pos, src) {
            Ok(n) => {
                self.open[handle] = OpenFile { pos: f.pos + n as u64, ..f };
                Ok(n)
            },
            Err(e) => Err(e),
        }
    }
}

} // verus!
