//! The system calls on files and descriptors.

use crate::fd::{spec_first_free, spec_stored, FileRef};
use crate::file::{read_source, spec_read, OpenFile};
use crate::flags::OpenFlags;
use crate::kernel::{spaces_stored, Kernel};
use crate::syscall::{parse_iovec, sink_write, spec_iovecs, IoVec, Kstat, Sinks};
use crate::task::Task;
use crate::utils::{raw_ptr_to_ref_str, spec_cstr};
use vstd::prelude::*;

verus! {

/// The command of `fcntl` that duplicates a descriptor.
pub const F_DUPFD: usize = 0;

impl Kernel {
    /// The file that descriptor `fd` of the current task refers to.
    pub fn cur_fd(&self, fd: usize) -> (r: Option<FileRef>)
        requires
            self.scheduler.current.0.is_some(),
        ensures
            r == self.cur().fd_table.spec_query(fd as int),
    {
        match &self.scheduler.current.0 {
            Some(t) => t.fd_table.query_fd(fd),
            None => None,
        }
    }

    /// Whether a write to descriptor `fd` is fatal: the descriptor stands
    /// for standard input, which cannot be written.
    pub open spec fn write_fatal(&self, fd: usize) -> bool {
        self.cur().fd_table.spec_query(fd as int) == Some(FileRef::Stdin)
    }

    /// Whether a read from descriptor `fd` is fatal: the descriptor stands
    /// for standard output or standard error, which cannot be read.
    pub open spec fn read_fatal(&self, fd: usize) -> bool {
        self.cur().fd_table.spec_query(fd as int) == Some(FileRef::Stdout)
            || self.cur().fd_table.spec_query(fd as int) == Some(FileRef::Stderr)
    }

    /// Whether a write to descriptor `fd` is fatal: see `write_fatal`.
    pub fn write_is_fatal(&self, fd: usize) -> (r: bool)
        requires
            self.scheduler.current.0.is_some(),
        ensures
            r == self.write_fatal(fd),
    {
        match self.cur_fd(fd) {
            Some(FileRef::Stdin) => true,
            _ => false,
        }
    }

    /// Whether a read from descriptor `fd` is fatal: see `read_fatal`.
    pub fn read_is_fatal(&self, fd: usize) -> (r: bool)
        requires
            self.scheduler.current.0.is_some(),
        ensures
            r == self.read_fatal(fd),
    {
        match self.cur_fd(fd) {
            Some(FileRef::Stdout) => true,
            Some(FileRef::Stderr) => true,
            _ => false,
        }
    }

    /// What `write` does: see `sink_write`. The data are the `count` bytes at
    /// `buf` in the address space of the current task.
    pub open spec fn write_post(&self, post: Kernel, fd: usize, buf: usize, count: usize, r: isize) -> bool {
        &&& self.same_but_sinks(post)
        &&& (post.sinks(), r) == sink_write(
            self.sinks(),
            self.cur().fd_table.spec_query(fd as int),
            self.cur_space().spec_bytes_at(buf as int, count as int),
        )
    }

    /// Writes the `count` bytes at `buf` to the file of descriptor `fd`.
    /// Returns the number of bytes written, or -1. The descriptor must not
    /// stand for standard input.
    pub fn sys_write(&mut self, fd: usize, buf: usize, count: usize) -> (r: isize)
        requires
            old(self).wf(),
            old(self).scheduler.current.0.is_some(),
            !old(self).write_fatal(fd),
        ensures
            final(self).wf(),
            old(self).write_post(*final(self), fd, buf, count, r),
    {
        let file = match self.cur_fd(fd) {
            Some(file) => file,
            None => {
                return -1;
            },
        };
        let data = match self.user_read(buf, count) {
            Some(data) => data,
            None => {
                return -1;
            },
        };
        match file {
            FileRef::Open(h) => match self.fs.write_handle(h, data.as_slice()) {
                Ok(n) => {
                    assert(self.fs.files().len() == old(self).fs.files().len());
                    #[verifier::truncate]
                    (n as isize)
                },
                Err(_) => -1,
            },
            _ => {
                self.console.write_bytes(data.as_slice());
                #[verifier::truncate]
                (count as isize)
            },
        }
    }

    /// What `close` does: the slot of an open descriptor becomes empty and
    /// the result is 0; for a descriptor that is not open the result is -1
    /// and nothing changes.
    pub open spec fn close_post(&self, post: Kernel, fd: usize, r: isize) -> bool {
        if self.cur().fd_table.spec_query(fd as int).is_some() {
            &&& r == 0
            &&& post == self.with_current(Task { fd_table: post.cur().fd_table, ..self.cur() })
            &&& post.cur().fd_table@ == self.cur().fd_table@.update(fd as int, None)
        } else {
            r == -1 && post == *self
        }
    }

    /// Closes descriptor `fd` of the current task.
    pub fn sys_close(&mut self, fd: usize) -> (r: isize)
        requires
            old(self).wf(),
            old(self).scheduler.current.0.is_some(),
        ensures
            final(self).wf(),
            old(self).close_post(*final(self), fd, r),
    {
        if self.cur_fd(fd).is_none() {
            return -1;
        }
        let mut t = self.take_current();
        let _ = t.fd_table.close(fd);
        proof {
            self.with_current(t).lemma_current_replaced(*old(self), t);
        }
        self.put_current(t);
        0
    }

    /// What `fcntl` does: with the command F_DUPFD and an open descriptor
    /// `fd`, the file of `fd` is stored at the smallest free descriptor that
    /// is not below `arg`, which is the result. With another command, a
    /// descriptor that is not open, or an `arg` at which no descriptor can
    /// be stored, the result is -1 and nothing changes.
    pub open spec fn fcntl_post(&self, post: Kernel, fd: usize, cmd: usize, arg: usize, r: isize) -> bool {
        let table = self.cur().fd_table;
        if cmd == F_DUPFD && table.spec_query(fd as int).is_some() && arg < usize::MAX - 1
            && table@.len() < usize::MAX - 1 {
            let at = spec_first_free(table@, arg as int);
            &&& r == at as isize
            &&& post == self.with_current(Task { fd_table: post.cur().fd_table, ..self.cur() })
            &&& post.cur().fd_table@ == spec_stored(table@, at, table.spec_query(fd as int).unwrap())
        } else {
            r == -1 && post == *self
        }
    }

    /// Duplicates descriptor `fd` of the current task.
    pub fn sys_fcntl(&mut self, fd: usize, cmd: usize, arg: usize) -> (r: isize)
        requires
            old(self).wf(),
            old(self).scheduler.current.0.is_some(),
        ensures
            final(self).wf(),
            old(self).fcntl_post(*final(self), fd, cmd, arg, r),
    {
        if cmd != F_DUPFD {
            return -1;
        }
        let file = match self.cur_fd(fd) {
            Some(file) => file,
            None => {
                return -1;
            },
        };
        let len: usize = match &self.scheduler.current.0 {
            Some(t) => t.fd_table.len(),
            None => 0,
        };
        if arg >= usize::MAX - 1 || len >= usize::MAX - 1 {
            return -1;
        }
        let mut t = self.take_current();
        proof {
            crate::fd::lemma_first_free(t.fd_table@, arg as int);
        }
        let at = t.fd_table.alloc_hint(arg, file);
        proof {
            self.with_current(t).lemma_current_replaced(*old(self), t);
        }
        self.put_current(t);
        #[verifier::truncate]
        (at as isize)
    }

    /// What `openat` does. The flags must be understood, the path at
    /// `pathname` must be a string in resident pages that names a stored
    /// file, and the table of the current task must have room: then the file
    /// is opened with the cursor at its start, for reading unless the flags
    /// say write-only, for writing where they say write-only or read-write,
    /// and stored at the smallest free descriptor, which is the result. Else
    /// the result is -1 and nothing changes.
    pub open spec fn open_at_post(&self, post: Kernel, pathname: usize, flags: u32, r: isize) -> bool {
        let opened = OpenFlags::spec_from_bits(flags);
        let path = spec_cstr(self.cur_space(), pathname as int);
        let table = self.cur().fd_table;
        if opened.is_some() && path.is_some() && self.fs.spec_lookup(path.unwrap()).is_some()
            && table@.len() < usize::MAX - 1 {
            let node = self.fs.spec_lookup(path.unwrap()).unwrap();
            let at = spec_first_free(table@, 0);
            &&& r == at as isize
            &&& post == (Kernel { fs: post.fs, ..self.with_current(
                Task { fd_table: post.cur().fd_table, ..self.cur() },
            ) })
            &&& post.fs.nodes@ == self.fs.nodes@
            &&& post.fs.open@ == self.fs.open@.push(
                OpenFile {
                    node,
                    pos: 0,
                    readable: opened.unwrap().spec_wants_read(),
                    writable: opened.unwrap().spec_wants_write(),
                },
            )
            &&& post.cur().fd_table@ == spec_stored(
                table@,
                at,
                FileRef::Open(self.fs.open@.len() as usize),
            )
        } else {
            r == -1 && post == *self
        }
    }

    /// Opens the file whose path is the string at `pathname`. The directory
    /// descriptor `fd` and the `mode` have no effect.
    pub fn sys_open_at(&mut self, fd: usize, pathname: usize, flags: u32, mode: i32) -> (r: isize)
        requires
            old(self).wf(),
            old(self).scheduler.current.0.is_some(),
        ensures
            final(self).wf(),
            old(self).open_at_post(*final(self), pathname, flags, r),
    {
        let opened = match OpenFlags::from_bits(flags) {
            Some(f) => f,
            None => {
                return -1;
            },
        };
        let id: usize = match &self.scheduler.current.0 {
            Some(t) => t.memory_set,
            None => 0,
        };
        assert(self.spaces@[id as int].wf());
        let path = match raw_ptr_to_ref_str(&self.spaces[id], pathname) {
            Some(p) => p,
            None => {
                return -1;
            },
        };
        let node = match self.fs.lookup(path.as_slice()) {
            Some(n) => n,
            None => {
                return -1;
            },
        };
        let len: usize = match &self.scheduler.current.0 {
            Some(t) => t.fd_table.len(),
            None => 0,
        };
        if len >= usize::MAX - 1 {
            return -1;
        }
        let handle = self.fs.open_handle(node, opened.wants_read(), opened.wants_write());
        let mut t = self.take_current();
        proof {
            crate::fd::lemma_first_free(t.fd_table@, 0);
            assert(self.fs.files() =~= old(self).fs.files());
        }
        let at = t.fd_table.alloc_fd(FileRef::Open(handle));
        proof {
            self.with_current(t).lemma_current_replaced(*old(self), t);
        }
        self.put_current(t);
        #[verifier::truncate]
        (at as isize)
    }

    /// What `fstat` does: for an open descriptor, the placeholder record is
    /// stored at `kst` and the result is 0. For a descriptor that is not
    /// open, or a target that does not lie in resident pages, the result is
    /// -1 and nothing changes.
    pub open spec fn fstat_post(&self, post: Kernel, fd: usize, kst: usize, r: isize) -> bool {
        if self.cur().fd_table.spec_query(fd as int).is_some() && self.cur_space().spec_range_resident(
            kst as int,
            Kstat::spec_placeholder().spec_bytes().len() as int,
        ) {
            &&& r == 0
            &&& post == (Kernel { spaces: post.spaces, ..*self })
            &&& spaces_stored(
                self.spaces@,
                post.spaces@,
                self.cur().memory_set as int,
                kst as int,
                Kstat::spec_placeholder().spec_bytes(),
            )
        } else {
            r == -1 && post == *self
        }
    }

    /// Stores the record of the file of descriptor `fd` at `kst`.
    pub fn sys_fstat(&mut self, fd: usize, kst: usize) -> (r: isize)
        requires
            old(self).wf(),
            old(self).scheduler.current.0.is_some(),
        ensures
            final(self).wf(),
            old(self).fstat_post(*final(self), fd, kst, r),
    {
        if self.cur_fd(fd).is_none() {
            return -1;
        }
        let bytes = Kstat::placeholder().to_bytes();
        if self.user_write(kst, bytes.as_slice()) {
            0
        } else {
            -1
        }
    }

    /// What `read` does, from a descriptor that does not stand for standard
    /// output or standard error (a read from those is fatal: see
    /// `read_fatal`). The descriptor must be open, and the buffer of `count`
    /// bytes at `buf` must lie in resident pages. From standard input, up to `count` of the bytes that wait on
    /// the console are taken. From an open file, up to `count` bytes are
    /// read at its cursor, which moves past them. The bytes are stored at
    /// `buf` and their number is the result. Else the result is -1 and
    /// nothing changes.
    pub open spec fn read_post(&self, post: Kernel, fd: usize, buf: usize, count: usize, r: isize) -> bool {
        let file = self.cur().fd_table.spec_query(fd as int);
        if file.is_none() || !self.cur_space().spec_range_resident(buf as int, count as int) {
            r == -1 && post == *self
        } else {
            match file.unwrap() {
                FileRef::Open(h) => match read_source(self.fs.files(), self.fs.open@, h as int) {
                    Ok(f) => {
                        let bytes = spec_read(self.fs.files()[f.node as int], f.pos as int, count as int);
                        &&& r == bytes.len() as isize
                        &&& post == (Kernel { spaces: post.spaces, fs: post.fs, ..*self })
                        &&& post.fs.nodes@ == self.fs.nodes@
                        &&& post.fs.open@ == self.fs.open@.update(
                            h as int,
                            OpenFile { pos: (f.pos + bytes.len()) as u64, ..f },
                        )
                        &&& spaces_stored(
                            self.spaces@,
                            post.spaces@,
                            self.cur().memory_set as int,
                            buf as int,
                            bytes,
                        )
                    },
                    Err(e) => r == -1 && post == *self,
                },
                _ => {
                    let waiting = self.console.input@;
                    let n = if count <= waiting.len() {
                        count as int
                    } else {
                        waiting.len() as int
                    };
                    &&& r == n as isize
                    &&& post == (Kernel { spaces: post.spaces, console: post.console, ..*self })
                    &&& post.console.output@ == self.console.output@
                    &&& post.console.input@ == waiting.subrange(n, waiting.len() as int)
                    &&& spaces_stored(
                        self.spaces@,
                        post.spaces@,
                        self.cur().memory_set as int,
                        buf as int,
                        waiting.subrange(0, n),
                    )
                },
            }
        }
    }

    /// Reads up to `count` bytes from the file of descriptor `fd` into the
    /// buffer at `buf`. Returns the number of bytes read, or -1. The
    /// descriptor must not stand for standard output or standard error.
    pub fn sys_read(&mut self, fd: usize, buf: usize, count: usize) -> (r: isize)
        requires
            old(self).wf(),
            old(self).scheduler.current.0.is_some(),
            !old(self).read_fatal(fd),
        ensures
            final(self).wf(),
            old(self).read_post(*final(self), fd, buf, count, r),
    {
        let file = match self.cur_fd(fd) {
            Some(file) => file,
            None => {
                return -1;
            },
        };
        if !self.user_resident(buf, count) {
            return -1;
        }
        let ghost space = self.cur_space();
        let bytes = match file {
            FileRef::Open(h) => match self.fs.read_handle(h, count) {
                Ok(bytes) => bytes,
                Err(_) => {
                    return -1;
                },
            },
            _ => self.console.read_bytes(count),
        };
        proof {
            assert(self.fs.files() =~= old(self).fs.files());
            assert forall|x: int| buf <= x < buf + bytes@.len() implies (#[trigger] space.spec_byte_at(
                x,
            )).is_some() by {}
        }
        let stored = self.user_write(buf, bytes.as_slice());
        assert(stored);
        #[verifier::truncate]
        (bytes.len() as isize)
    }

    /// What `writev` does to the sinks and what it returns: the buffers of
    /// the first `upto` entries that are not empty are written in order,
    /// and the results of the writes are added up, wrapping around.
    pub open spec fn sink_writev(&self, s: Sinks, fd: usize, vecs: Seq<IoVec>, upto: int) -> (Sinks, isize)
        decreases upto,
    {
        if upto <= 0 {
            (s, 0isize)
        } else {
            let before = self.sink_writev(s, fd, vecs, upto - 1);
            let v = vecs[upto - 1];
            if v.io_v_len > 0 {
                let step = sink_write(
                    before.0,
                    self.cur().fd_table.spec_query(fd as int),
                    self.cur_space().spec_bytes_at(v.io_v_base as int, v.io_v_len as int),
                );
                (step.0, before.1.wrapping_add(step.1))
            } else {
                before
            }
        }
    }

    /// Whether `writev` is fatal: the descriptor stands for standard input,
    /// and the array of entries, which lies in resident pages, names a
    /// buffer that is not empty, so that a write would be made.
    pub open spec fn write_v_fatal(&self, fd: usize, io_vec: usize, io_v_cnt: isize) -> bool {
        &&& self.write_fatal(fd)
        &&& io_v_cnt > 0
        &&& 16 * io_v_cnt <= usize::MAX
        &&& self.cur_space().spec_bytes_at(io_vec as int, 16 * io_v_cnt).is_some()
        &&& exists|i: int|
            0 <= i < io_v_cnt && (#[trigger] spec_iovecs(
                self.cur_space().spec_bytes_at(io_vec as int, 16 * io_v_cnt).unwrap(),
                io_v_cnt as nat,
            )[i]).io_v_len > 0
    }

    /// Whether `writev` is fatal: see `write_v_fatal`.
    pub fn write_v_is_fatal(&self, fd: usize, io_vec: usize, io_v_cnt: isize) -> (r: bool)
        requires
            self.wf(),
            self.scheduler.current.0.is_some(),
        ensures
            r == self.write_v_fatal(fd, io_vec, io_v_cnt),
    {
        if !self.write_is_fatal(fd) || io_v_cnt <= 0 {
            return false;
        }
        let count: usize = io_v_cnt as usize;
        if count > usize::MAX / 16 {
            return false;
        }
        let table = match self.user_read(io_vec, count * 16) {
            Some(t) => t,
            None => {
                return false;
            },
        };
        let ghost vecs = spec_iovecs(table@, count as nat);
        let mut i: usize = 0;
        while i < count
            invariant
                i <= count,
                count == io_v_cnt,
                count * 16 <= usize::MAX,
                table@.len() == 16 * count,
                self.write_fatal(fd),
                self.cur_space().spec_bytes_at(io_vec as int, 16 * io_v_cnt) == Some(table@),
                vecs == spec_iovecs(table@, count as nat),
                forall|j: int| 0 <= j < i ==> (#[trigger] vecs[j]).io_v_len == 0,
            decreases count - i,
        {
            let v = parse_iovec(vstd::slice::slice_subrange(table.as_slice(), i * 16, i * 16 + 16));
            assert(v == vecs[i as int]);
            if v.io_v_len > 0 {
                assert(spec_iovecs(
                    self.cur_space().spec_bytes_at(io_vec as int, 16 * io_v_cnt).unwrap(),
                    io_v_cnt as nat,
                )[i as int].io_v_len > 0);
                return true;
            }
            i += 1;
        }
        false
    }

    /// What `writev` does. With a count that is not positive the result is
    /// 0. Else the array of `io_v_cnt` entries at `io_vec` must lie in
    /// resident pages: then the buffers are written as `sink_writev` says.
    /// Else the result is -1 and nothing changes.
    pub open spec fn write_v_post(&self, post: Kernel, fd: usize, io_vec: usize, io_v_cnt: isize, r: isize) -> bool {
        if io_v_cnt <= 0 {
            r == 0 && post == *self
        } else if 16 * io_v_cnt > usize::MAX || self.cur_space().spec_bytes_at(
            io_vec as int,
            16 * io_v_cnt,
        ).is_none() {
            r == -1 && post == *self
        } else {
            let vecs = spec_iovecs(
                self.cur_space().spec_bytes_at(io_vec as int, 16 * io_v_cnt).unwrap(),
                io_v_cnt as nat,
            );
            &&& self.same_but_sinks(post)
            &&& (post.sinks(), r) == self.sink_writev(self.sinks(), fd, vecs, io_v_cnt as int)
        }
    }

    /// Writes the buffers that the array of `io_v_cnt` entries at `io_vec`
    /// names to the file of descriptor `fd`, in order. No write to standard
    /// input must come of it.
    pub fn sys_write_v(&mut self, fd: usize, io_vec: usize, io_v_cnt: isize) -> (r: isize)
        requires
            old(self).wf(),
            old(self).scheduler.current.0.is_some(),
            !old(self).write_v_fatal(fd, io_vec, io_v_cnt),
        ensures
            final(self).wf(),
            old(self).write_v_post(*final(self), fd, io_vec, io_v_cnt, r),
    {
        if io_v_cnt <= 0 {
            return 0;
        }
        let count: usize = io_v_cnt as usize;
        if count > usize::MAX / 16 {
            return -1;
        }
        let table = match self.user_read(io_vec, count * 16) {
            Some(t) => t,
            None => {
                return -1;
            },
        };
        let ghost vecs = spec_iovecs(table@, count as nat);
        let mut total: isize = 0;
        let mut i: usize = 0;
        while i < count
            invariant
                i <= count,
                count * 16 <= usize::MAX,
                table@.len() == 16 * count,
                vecs == spec_iovecs(table@, count as nat),
                self.wf(),
                self.scheduler.current.0.is_some(),
                old(self).same_but_sinks(*self),
                (self.sinks(), total) == old(self).sink_writev(old(self).sinks(), fd, vecs, i as int),
                count == io_v_cnt,
                old(self).cur_space().spec_bytes_at(io_vec as int, 16 * io_v_cnt) == Some(table@),
                !old(self).write_v_fatal(fd, io_vec, io_v_cnt),
            decreases count - i,
        {
            let v = parse_iovec(vstd::slice::slice_subrange(table.as_slice(), i * 16, i * 16 + 16));
            assert(v == vecs[i as int]);
            if v.io_v_len > 0 {
                let ghost mid = *self;
                assert(mid.cur() == old(self).cur());
                assert(!old(self).write_fatal(fd)) by {
                    if old(self).write_fatal(fd) {
                        assert(spec_iovecs(
                            old(self).cur_space().spec_bytes_at(io_vec as int, 16 * io_v_cnt).unwrap(),
                            io_v_cnt as nat,
                        )[i as int].io_v_len > 0);
                    }
                }
                let n = self.sys_write(fd, v.io_v_base, v.io_v_len);
                total = total.wrapping_add(n);
                proof {
                    assert(mid.cur() == old(self).cur());
                    assert(mid.cur_space() == old(self).cur_space());
                }
            }
            i += 1;
        }
        total
    }
}

} // verus!
