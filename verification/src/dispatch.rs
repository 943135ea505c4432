//! The dispatcher of system calls, and the interfaces through which the
//! parts of the kernel reach them.

use crate::kernel::Kernel;
use crate::syscall::SyscallId;
use vstd::prelude::*;

verus! {

/// The system calls on files.
pub trait SyscallFs {
    spec fn fs_ready(&self) -> bool;

    /// Whether a read from descriptor `fd` is served.
    spec fn read_served(&self, fd: usize) -> bool;

    /// Whether a write to descriptor `fd` is served.
    spec fn write_served(&self, fd: usize) -> bool;

    /// Whether the writes that the array of entries names are served.
    spec fn write_v_served(&self, fd: usize, io_vec: usize, io_v_cnt: isize) -> bool;

    fn fcntl(&mut self, fd: usize, cmd: usize, arg: usize) -> (r: isize)
        requires
            old(self).fs_ready(),
        ensures
            final(self).fs_ready(),
    ;

    fn open_at(&mut self, fd: usize, filename: usize, flags: u32, mode: i32) -> (r: isize)
        requires
            old(self).fs_ready(),
        ensures
            final(self).fs_ready(),
    ;

    fn close(&mut self, fd: usize) -> (r: isize)
        requires
            old(self).fs_ready(),
        ensures
            final(self).fs_ready(),
    ;

    fn read(&mut self, fd: usize, buf: usize, count: usize) -> (r: isize)
        requires
            old(self).fs_ready(),
            old(self).read_served(fd),
        ensures
            final(self).fs_ready(),
    ;

    fn write(&mut self, fd: usize, buf: usize, count: usize) -> (r: isize)
        requires
            old(self).fs_ready(),
            old(self).write_served(fd),
        ensures
            final(self).fs_ready(),
    ;

    fn write_v(&mut self, fd: usize, io_vec: usize, io_v_cnt: isize) -> (r: isize)
        requires
            old(self).fs_ready(),
            old(self).write_v_served(fd, io_vec, io_v_cnt),
        ensures
            final(self).fs_ready(),
    ;

    fn fstat(&mut self, fd: usize, kst: usize) -> (r: isize)
        requires
            old(self).fs_ready(),
        ensures
            final(self).fs_ready(),
    ;
}

/// Output to the console, as a system call.
pub trait SyscallIO {
    spec fn io_ready(&self) -> bool;

    /// Whether descriptor `fd` is served.
    spec fn io_served(&self, fd: usize) -> bool;

    fn write(&mut self, fd: usize, buf: usize, len: usize) -> (r: isize)
        requires
            old(self).io_ready(),
            old(self).io_served(fd),
        ensures
            final(self).io_ready(),
    ;
}

/// A kernel that serves output to the console only: of the descriptors,
/// only standard output.
pub struct ConsoleOnly(pub Kernel);

/// The system calls on the address space.
pub trait SyscallMem {
    spec fn mem_ready(&self) -> bool;

    fn mmap(&mut self, start: usize, len: usize, prot: u32, flags: u32, fd: usize, offset: usize) -> (r:
        isize)
        requires
            old(self).mem_ready(),
        ensures
            final(self).mem_ready(),
    ;

    fn munmap(&mut self, start: usize, len: usize) -> (r: isize)
        requires
            old(self).mem_ready(),
        ensures
            final(self).mem_ready(),
    ;

    fn mprotect(&mut self, start: usize, len: usize, prot: u32) -> (r: isize)
        requires
            old(self).mem_ready(),
        ensures
            final(self).mem_ready(),
    ;
}

/// The system calls on tasks.
pub trait SyscallTask {
    spec fn task_ready(&self) -> bool;

    /// Whether the current task can exit: it is the init task, or another
    /// task is ready to run.
    spec fn can_exit(&self) -> bool;

    fn exit(&mut self, status: i32)
        requires
            old(self).task_ready(),
            old(self).can_exit(),
    ;

    fn clone(&mut self, flags: usize, user_stack: usize) -> (r: isize)
        requires
            old(self).task_ready(),
        ensures
            final(self).task_ready(),
    ;

    fn sched_yield(&mut self) -> (r: isize)
        requires
            old(self).task_ready(),
        ensures
            final(self).task_ready(),
    ;
}

/// The system call on time.
pub trait SyscallTime {
    spec fn time_ready(&self) -> bool;

    fn get_time_of_day(&mut self, tv: usize, tz: usize) -> (r: isize)
        requires
            old(self).time_ready(),
        ensures
            final(self).time_ready(),
    ;
}

impl SyscallFs for Kernel {
    open spec fn fs_ready(&self) -> bool {
        self.wf() && self.scheduler.current.0.is_some()
    }

    open spec fn read_served(&self, fd: usize) -> bool {
        !self.read_fatal(fd)
    }

    open spec fn write_served(&self, fd: usize) -> bool {
        !self.write_fatal(fd)
    }

    open spec fn write_v_served(&self, fd: usize, io_vec: usize, io_v_cnt: isize) -> bool {
        !self.write_v_fatal(fd, io_vec, io_v_cnt)
    }

    fn fcntl(&mut self, fd: usize, cmd: usize, arg: usize) -> (r: isize)
        ensures
            old(self).fcntl_post(*final(self), fd, cmd, arg, r),
    {
        self.sys_fcntl(fd, cmd, arg)
    }

    fn open_at(&mut self, fd: usize, filename: usize, flags: u32, mode: i32) -> (r: isize)
        ensures
            old(self).open_at_post(*final(self), filename, flags, r),
    {
        self.sys_open_at(fd, filename, flags, mode)
    }

    fn close(&mut self, fd: usize) -> (r: isize)
        ensures
            old(self).close_post(*final(self), fd, r),
    {
        self.sys_close(fd)
    }

    fn read(&mut self, fd: usize, buf: usize, count: usize) -> (r: isize)
        ensures
            old(self).read_post(*final(self), fd, buf, count, r),
    {
        self.sys_read(fd, buf, count)
    }

    fn write(&mut self, fd: usize, buf: usize, count: usize) -> (r: isize)
        ensures
            old(self).write_post(*final(self), fd, buf, count, r),
    {
        self.sys_write(fd, buf, count)
    }

    fn write_v(&mut self, fd: usize, io_vec: usize, io_v_cnt: isize) -> (r: isize)
        ensures
            old(self).write_v_post(*final(self), fd, io_vec, io_v_cnt, r),
    {
        self.sys_write_v(fd, io_vec, io_v_cnt)
    }

    fn fstat(&mut self, fd: usize, kst: usize) -> (r: isize)
        ensures
            old(self).fstat_post(*final(self), fd, kst, r),
    {
        self.sys_fstat(fd, kst)
    }
}

impl SyscallIO for ConsoleOnly {
    open spec fn io_ready(&self) -> bool {
        self.0.wf() && self.0.scheduler.current.0.is_some()
    }

    open spec fn io_served(&self, fd: usize) -> bool {
        fd == 1
    }

    /// Puts the `len` bytes at `buf` out on the console and returns `len`;
    /// returns -1 and puts out nothing where the bytes do not lie in
    /// resident pages.
    fn write(&mut self, fd: usize, buf: usize, len: usize) -> (r: isize)
        ensures
            match old(self).0.cur_space().spec_bytes_at(buf as int, len as int) {
                Some(bytes) => {
                    &&& r == len as isize
                    &&& final(self).0 == (Kernel { console: final(self).0.console, ..old(self).0 })
                    &&& final(self).0.console.output@ == old(self).0.console.output@ + bytes
                    &&& final(self).0.console.input@ == old(self).0.console.input@
                },
                None => r == -1 && final(self).0 == old(self).0,
            },
    {
        match self.0.user_read(buf, len) {
            Some(bytes) => {
                self.0.console.write_bytes(bytes.as_slice());
                #[verifier::truncate]
                (len as isize)
            },
            None => -1,
        }
    }
}

impl SyscallMem for Kernel {
    open spec fn mem_ready(&self) -> bool {
        self.wf() && self.scheduler.current.0.is_some()
    }

    fn mmap(&mut self, start: usize, len: usize, prot: u32, flags: u32, fd: usize, offset: usize) -> (r:
        isize)
        ensures
            old(self).sys_mmap_post(*final(self), start, len, prot, flags, fd, offset, r),
    {
        self.sys_mmap(start, len, prot, flags, fd, offset)
    }

    fn munmap(&mut self, start: usize, len: usize) -> (r: isize)
        ensures
            old(self).sys_munmap_post(*final(self), start, len, r),
    {
        self.sys_munmap(start, len)
    }

    fn mprotect(&mut self, start: usize, len: usize, prot: u32) -> (r: isize)
        ensures
            old(self).sys_mprotect_post(*final(self), start, len, prot, r),
    {
        self.sys_mprotect(start, len, prot)
    }
}

impl SyscallTask for Kernel {
    open spec fn task_ready(&self) -> bool {
        self.wf() && self.scheduler.current.0.is_some()
    }

    open spec fn can_exit(&self) -> bool {
        self.cur().pid == 1 || self.scheduler.queue().len() > 0
    }

    fn exit(&mut self, status: i32)
        ensures
            final(self).wf(),
            old(self).sys_exit_post(*final(self)),
    {
        self.sys_exit(status)
    }

    fn clone(&mut self, flags: usize, user_stack: usize) -> (r: isize)
        ensures
            old(self).sys_clone_post(*final(self), flags, user_stack, r),
    {
        self.sys_clone(flags, user_stack)
    }

    fn sched_yield(&mut self) -> (r: isize)
        ensures
            old(self).sys_sched_yield_post(*final(self), r),
    {
        self.sys_sched_yield()
    }
}

impl SyscallTime for Kernel {
    open spec fn time_ready(&self) -> bool {
        self.wf() && self.scheduler.current.0.is_some()
    }

    fn get_time_of_day(&mut self, tv: usize, tz: usize) -> (r: isize)
        ensures
            old(self).sys_get_time_of_day_post(*final(self), tv, r),
    {
        self.sys_get_time_of_day(tv, tz)
    }
}

/// What the system call with number `id` and arguments `args` does, and
/// what it returns: what the call of that number does with the arguments
/// that it takes. `ioctl` and `set_tid_address` do nothing and return 0;
/// `exit_group` does what `exit` does.
pub open spec fn syscall_post(pre: Kernel, post: Kernel, id: usize, args: Seq<usize>, r: isize) -> bool {
    match SyscallId::spec_from_usize(id) {
        Some(SyscallId::Fcntl) => pre.fcntl_post(post, args[0], args[1], args[2], r),
        Some(SyscallId::IoCtl) => r == 0 && post == pre,
        Some(SyscallId::OpenAt) => pre.open_at_post(post, args[1], args[2] as u32, r),
        Some(SyscallId::Close) => pre.close_post(post, args[0], r),
        Some(SyscallId::Read) => pre.read_post(post, args[0], args[1], args[2], r),
        Some(SyscallId::Write) => pre.write_post(post, args[0], args[1], args[2], r),
        Some(SyscallId::WriteV) => pre.write_v_post(post, args[0], args[1], args[2] as isize, r),
        Some(SyscallId::Fstat) => pre.fstat_post(post, args[0], args[1], r),
        Some(SyscallId::Exit) => r == 0 && pre.sys_exit_post(post),
        Some(SyscallId::ExitGroup) => r == 0 && pre.sys_exit_post(post),
        Some(SyscallId::SetTidAddress) => r == 0 && post == pre,
        Some(SyscallId::SchedYield) => pre.sys_sched_yield_post(post, r),
        Some(SyscallId::GetTimeOfDay) => pre.sys_get_time_of_day_post(post, args[0], r),
        Some(SyscallId::MUnmap) => pre.sys_munmap_post(post, args[0], args[1], r),
        Some(SyscallId::Clone) => pre.sys_clone_post(post, args[0], args[1], r),
        Some(SyscallId::MMap) => pre.sys_mmap_post(
            post,
            args[0],
            args[1],
            args[2] as u32,
            args[3] as u32,
            args[4],
            args[5],
            r,
        ),
        Some(SyscallId::MProtect) => pre.sys_mprotect_post(post, args[0], args[1], args[2] as u32, r),
        None => false,
    }
}

/// Whether the system call with number `id` and arguments `args` can be
/// served: the number is that of a system call, a task runs, and the call
/// is not fatal. `exit` and `exit_group` are fatal unless the task is the
/// init task or another task is ready to run; `read` is fatal from standard
/// output and standard error, `write` and `writev` to standard input.
pub open spec fn syscall_served(k: Kernel, id: usize, args: Seq<usize>) -> bool {
    &&& k.scheduler.current.0.is_some()
    &&& SyscallId::spec_from_usize(id).is_some()
    &&& (id == 93 || id == 94) ==> k.cur().pid == 1 || k.scheduler.queue().len() > 0
    &&& id == 63 ==> !k.read_fatal(args[0])
    &&& id == 64 ==> !k.write_fatal(args[0])
    &&& id == 66 ==> !k.write_v_fatal(args[0], args[1], args[2] as isize)
}

/// Whether the system call with number `id` and arguments `args` can be
/// served.
pub fn can_serve(kernel: &Kernel, id: usize, args: [usize; 6]) -> (r: bool)
    requires
        kernel.wf(),
    ensures
        r == syscall_served(*kernel, id, args@),
{
    match &kernel.scheduler.current.0 {
        None => false,
        Some(t) => match SyscallId::from_usize(id) {
            None => false,
            Some(SyscallId::Exit) => t.is_init() || kernel.scheduler.ready.len() > 0,
            Some(SyscallId::ExitGroup) => t.is_init() || kernel.scheduler.ready.len() > 0,
            Some(SyscallId::Read) => !kernel.read_is_fatal(args[0]),
            Some(SyscallId::Write) => !kernel.write_is_fatal(args[0]),
            Some(SyscallId::WriteV) => !kernel.write_v_is_fatal(
                args[0],
                args[1],
                #[verifier::truncate]
                (args[2] as isize),
            ),
            Some(_) => true,
        },
    }
}

/// Serves the system call with number `syscall_id` for the current task.
pub fn syscall(kernel: &mut Kernel, syscall_id: usize, args: [usize; 6]) -> (r: isize)
    requires
        old(kernel).wf(),
        syscall_served(*old(kernel), syscall_id, args@),
    ensures
        final(kernel).wf(),
        syscall_post(*old(kernel), *final(kernel), syscall_id, args@, r),
{
    match SyscallId::from_usize(syscall_id) {
        Some(SyscallId::Fcntl) => kernel.sys_fcntl(args[0], args[1], args[2]),
        Some(SyscallId::IoCtl) => 0,
        Some(SyscallId::OpenAt) => kernel.sys_open_at(
            args[0],
            args[1],
            #[verifier::truncate]
            (args[2] as u32),
            #[verifier::truncate]
            (args[3] as i32),
        ),
        Some(SyscallId::Close) => kernel.sys_close(args[0]),
        Some(SyscallId::Read) => kernel.sys_read(args[0], args[1], args[2]),
        Some(SyscallId::Write) => kernel.sys_write(args[0], args[1], args[2]),
        Some(SyscallId::WriteV) => kernel.sys_write_v(
            args[0],
            args[1],
            #[verifier::truncate]
            (args[2] as isize),
        ),
        Some(SyscallId::Fstat) => kernel.sys_fstat(args[0], args[1]),
        Some(SyscallId::Exit) => {
            kernel.sys_exit(#[verifier::truncate] (args[0] as i32));
            0
        },
        Some(SyscallId::ExitGroup) => {
            kernel.sys_exit(#[verifier::truncate] (args[0] as i32));
            0
        },
        Some(SyscallId::SetTidAddress) => 0,
        Some(SyscallId::SchedYield) => kernel.sys_sched_yield(),
        Some(SyscallId::GetTimeOfDay) => kernel.sys_get_time_of_day(args[0], args[1]),
        Some(SyscallId::MUnmap) => kernel.sys_munmap(args[0], args[1]),
        Some(SyscallId::Clone) => kernel.sys_clone(args[0], args[1]),
        Some(SyscallId::MMap) => kernel.sys_mmap(
            args[0],
            args[1],
            #[verifier::truncate]
            (args[2] as u32),
            #[verifier::truncate]
            (args[3] as u32),
            args[4],
            args[5],
        ),
        Some(SyscallId::MProtect) => kernel.sys_mprotect(
            args[0],
            args[1],
            #[verifier::truncate]
            (args[2] as u32),
        ),
        None => 0,
    }
}

} // verus!
