//! The user side of the system-call interface: what a program does to call
//! the kernel, played on the current task.

use crate::context::{GeneralRegisters, TrapFrame};
use crate::kernel::Kernel;
use crate::syscall::SyscallId;
use crate::time::{duration_of, spec_duration_of, Duration, TimeVal};
use crate::dispatch::syscall_post;
use crate::elf::{mem_of, spec_store};
use crate::sys_task::timeval_bytes;
use crate::trap::{lemma_call_keeps_current, riscv_trap_handler, TrapCause};
use vstd::bytes::{spec_u64_from_le_bytes, u64_from_le_bytes};
use vstd::prelude::*;

verus! {

/// The trap frame `tf` with the registers of a system call set: the number
/// in `a7` and the four arguments in `a0` to `a3`.
pub open spec fn spec_call_frame(tf: TrapFrame, id: SyscallId, args: Seq<usize>) -> TrapFrame {
    TrapFrame {
        regs: GeneralRegisters {
            a0: args[0],
            a1: args[1],
            a2: args[2],
            a3: args[3],
            a7: id.spec_number(),
            ..tf.regs
        },
        ..tf
    }
}

/// The kernel at the moment at which the current task issues the system call.
pub open spec fn spec_calling(k: Kernel, id: SyscallId, args: Seq<usize>) -> Kernel {
    k.with_current(k.cur().with_frame(spec_call_frame(k.cur().spec_frame(), id, args)))
}

/// Whether the current task can issue the system call with the arguments
/// `args`: its program counter can move on, and the call can be served. A
/// task must not exit as the last one unless it is the init task, nor read
/// from standard output or standard error, nor write to standard input.
pub open spec fn can_call(k: Kernel, id: SyscallId, args: Seq<usize>) -> bool {
    &&& k.scheduler.current.0.is_some()
    &&& k.cur().spec_frame().sepc + 4 <= usize::MAX
    &&& (id == SyscallId::Exit || id == SyscallId::ExitGroup) ==> k.cur().pid == 1
        || k.scheduler.queue().len() > 0
    &&& id == SyscallId::Read ==> !k.read_fatal(args[0])
    &&& id == SyscallId::Write ==> !k.write_fatal(args[0])
    &&& id == SyscallId::WriteV ==> !k.write_v_fatal(args[0], args[1], args[2] as isize)
}

/// Whether the current task can issue the system call: see `can_call`.
pub fn call_allowed(kernel: &Kernel, id: SyscallId, args: [usize; 4]) -> (r: bool)
    requires
        kernel.wf(),
    ensures
        r == can_call(*kernel, id, args@),
{
    let task = match &kernel.scheduler.current.0 {
        Some(task) => task,
        None => {
            return false;
        },
    };
    if task.kstack.trap_frame().sepc > usize::MAX - 4 {
        return false;
    }
    match id {
        SyscallId::Exit => task.is_init() || kernel.scheduler.ready.len() > 0,
        SyscallId::ExitGroup => task.is_init() || kernel.scheduler.ready.len() > 0,
        SyscallId::Read => !kernel.read_is_fatal(args[0]),
        SyscallId::Write => !kernel.write_is_fatal(args[0]),
        SyscallId::WriteV => !kernel.write_v_is_fatal(
            args[0],
            args[1],
            #[verifier::truncate]
            (args[2] as isize),
        ),
        _ => true,
    }
}

/// Issues a system call from the current task: sets the registers, traps
/// into the kernel, and returns what the task finds in `a0` when it goes on.
/// For `exit` and `exit_group`, after which the task does not go on, and for
/// `sched_yield`, the result is 0.
pub fn syscall(kernel: &mut Kernel, id: SyscallId, args: [usize; 4]) -> (r: isize)
    requires
        old(kernel).wf(),
        can_call(*old(kernel), id, args@),
    ensures
        final(kernel).wf(),
        spec_calling(*old(kernel), id, args@).ecall_post(*final(kernel)),
        id != SyscallId::Exit && id != SyscallId::ExitGroup && id != SyscallId::SchedYield ==> {
            &&& final(kernel).scheduler.current.0.is_some()
            &&& r == final(kernel).cur().spec_frame().regs.a0 as isize
        },
        id == SyscallId::Exit || id == SyscallId::ExitGroup || id == SyscallId::SchedYield ==> r
            == 0,
{
    let number: usize = id.number();
    let mut t = kernel.take_current();
    let mut tf: TrapFrame = *t.kstack.trap_frame();
    tf.regs.a0 = args[0];
    tf.regs.a1 = args[1];
    tf.regs.a2 = args[2];
    tf.regs.a3 = args[3];
    tf.regs.a7 = number;
    proof {
        t.kstack.lemma_with_frame(tf);
    }
    t.set_trap_frame(tf);
    proof {
        kernel.with_current(t).lemma_current_replaced(*old(kernel), t);
    }
    kernel.put_current(t);
    assert(*kernel == spec_calling(*old(kernel), id, args@));
    let ghost calling = *kernel;
    let _ = riscv_trap_handler(kernel, TrapCause::UserEnvCall, 0, true);
    match id {
        SyscallId::Exit => 0,
        SyscallId::ExitGroup => 0,
        SyscallId::SchedYield => 0,
        _ => {
            proof {
                crate::trap::lemma_return_convention(calling, *kernel);
            }
            match &kernel.scheduler.current.0 {
                Some(t) => {
                    #[verifier::truncate]
                    (t.kstack.trap_frame().regs.a0 as isize)
                },
                None => 0,
            }
        },
    }
}

/// The current task exits with `status`.
pub fn exit(kernel: &mut Kernel, status: i32)
    requires
        old(kernel).wf(),
        can_call(*old(kernel), SyscallId::Exit, seq![status as usize, 0, 0, 0]),
    ensures
        final(kernel).wf(),
        spec_calling(*old(kernel), SyscallId::Exit, seq![status as usize, 0, 0, 0]).ecall_post(
            *final(kernel),
        ),
{
    let args: [usize; 4] = [#[verifier::truncate] (status as usize), 0, 0, 0];
    assert(args@ =~= seq![status as usize, 0, 0, 0]);
    let _ = syscall(kernel, SyscallId::Exit, args);
}

/// The current task writes the `len` bytes at `buf` to descriptor `fd`.
pub fn write(kernel: &mut Kernel, fd: usize, buf: usize, len: usize) -> (r: isize)
    requires
        old(kernel).wf(),
        can_call(*old(kernel), SyscallId::Write, seq![fd, buf, len, 0]),
    ensures
        final(kernel).wf(),
        spec_calling(*old(kernel), SyscallId::Write, seq![fd, buf, len, 0]).ecall_post(
            *final(kernel),
        ),
        final(kernel).scheduler.current.0.is_some(),
        r == final(kernel).cur().spec_frame().regs.a0 as isize,
{
    let args: [usize; 4] = [fd, buf, len, 0];
    assert(args@ =~= seq![fd, buf, len, 0]);
    syscall(kernel, SyscallId::Write, args)
}

/// The current task forks: a child is created that shares nothing with it.
/// Returns the number of the child.
pub fn fork(kernel: &mut Kernel) -> (r: isize)
    requires
        old(kernel).wf(),
        can_call(*old(kernel), SyscallId::Clone, seq![0, 0, 0, 0]),
    ensures
        final(kernel).wf(),
        spec_calling(*old(kernel), SyscallId::Clone, seq![0, 0, 0, 0]).ecall_post(*final(kernel)),
        final(kernel).scheduler.current.0.is_some(),
        r == final(kernel).cur().spec_frame().regs.a0 as isize,
{
    let args: [usize; 4] = [0, 0, 0, 0];
    assert(args@ =~= seq![0, 0, 0, 0]);
    syscall(kernel, SyscallId::Clone, args)
}

/// The current task gives up the hart.
pub fn sched_yield(kernel: &mut Kernel) -> (r: isize)
    requires
        old(kernel).wf(),
        can_call(*old(kernel), SyscallId::SchedYield, seq![0, 0, 0, 0]),
    ensures
        final(kernel).wf(),
        spec_calling(*old(kernel), SyscallId::SchedYield, seq![0, 0, 0, 0]).ecall_post(
            *final(kernel),
        ),
        r == 0,
{
    let args: [usize; 4] = [0, 0, 0, 0];
    assert(args@ =~= seq![0, 0, 0, 0]);
    syscall(kernel, SyscallId::SchedYield, args)
}

/// The current task asks for the time, to be stored at `tv` in its memory.
/// The sixteen bytes at `tv` must lie in resident pages of its address
/// space: a program hands over the address of a pair that it holds. The
/// result is 0.
pub fn get_time_of_day(kernel: &mut Kernel, tv: usize) -> (r: isize)
    requires
        old(kernel).wf(),
        can_call(*old(kernel), SyscallId::GetTimeOfDay, seq![tv, 0, 0, 0]),
        old(kernel).cur_space().spec_range_resident(tv as int, 16),
    ensures
        final(kernel).wf(),
        spec_calling(*old(kernel), SyscallId::GetTimeOfDay, seq![tv, 0, 0, 0]).ecall_post(
            *final(kernel),
        ),
        final(kernel).scheduler.current.0.is_some(),
        final(kernel).cur().spec_frame().regs.a0 == 0,
        final(kernel).cur_space().spec_bytes_at(tv as int, 16) == Some(
            timeval_bytes(old(kernel).spec_time_of_day()),
        ),
        r == 0,
{
    let args: [usize; 4] = [tv, 0, 0, 0];
    assert(args@ =~= seq![tv, 0, 0, 0]);
    let r = syscall(kernel, SyscallId::GetTimeOfDay, args);
    proof {
        let pre = *old(kernel);
        let frame = spec_call_frame(pre.cur().spec_frame(), SyscallId::GetTimeOfDay, args@);
        let calling = spec_calling(pre, SyscallId::GetTimeOfDay, args@);
        pre.cur().kstack.lemma_with_frame(frame);
        assert(calling.cur().spec_frame() == frame);
        let entered = calling.with_step(4);
        assert(frame.regs.a7 == 169);
        assert(calling.ecall_post(*kernel));
        let (mid, r0) = choose|mid: Kernel, r0: isize| #[trigger]
            syscall_post(entered, mid, frame.regs.a7, frame.spec_args(), r0)
                && mid.scheduler.current.0.is_some() && *kernel == mid.with_result(r0 as usize);
        mid.cur().kstack.lemma_with_frame(
            TrapFrame {
                regs: GeneralRegisters { a0: r0 as usize, ..mid.cur().spec_frame().regs },
                ..mid.cur().spec_frame()
            },
        );
        assert(frame.spec_args()[0] == tv);
        assert(entered.cur_space() == pre.cur_space());
        assert(entered.sys_get_time_of_day_post(mid, tv, r0));
        assert(r0 == 0);
        lemma_call_keeps_current(entered, mid, frame.regs.a7, frame.spec_args(), r0);
        let stored = timeval_bytes(pre.spec_time_of_day());
        vstd::bytes::lemma_auto_spec_u64_to_from_le_bytes();
        assert(stored.len() == 16);
        calling.cur().kstack.lemma_with_frame(
            TrapFrame { sepc: (frame.sepc + 4) as usize, ..frame },
        );
        let space = kernel.cur_space();
        assert(space == mid.spaces@[pre.cur().memory_set as int]);
        assert forall|x: int| tv <= x < tv + 16 implies (#[trigger] space.spec_byte_at(x)) == Some(
            stored[x - tv],
        ) by {
            assert(space.spec_byte_at(x) == spec_store(mem_of(pre.cur_space()), tv as int, stored)(x));
        }
        assert(space.spec_bytes_at(tv as int, 16).unwrap() =~= stored);
    }
    r
}

/// A point in time, as the span since the timer was started.
#[derive(Clone, Copy, Debug, PartialEq, Eq, Structural)]
pub struct Instant(pub Duration);

/// The pair of seconds and microseconds that sixteen bytes of memory hold.
pub open spec fn spec_timeval(bytes: Seq<u8>) -> TimeVal {
    TimeVal {
        secs: spec_u64_from_le_bytes(bytes.subrange(0, 8)) as isize,
        usecs: spec_u64_from_le_bytes(bytes.subrange(8, 16)) as isize,
    }
}

impl Instant {
    /// The time now: the current task asks for the time, to be stored at
    /// `tv` in its memory, and reads it from there. `None`, with nothing
    /// changed, where the sixteen bytes at `tv` do not lie in resident pages.
    pub fn now(kernel: &mut Kernel, tv: usize) -> (r: Option<Instant>)
        requires
            old(kernel).wf(),
            can_call(*old(kernel), SyscallId::GetTimeOfDay, seq![tv, 0, 0, 0]),
        ensures
            final(kernel).wf(),
            r.is_some() == old(kernel).cur_space().spec_range_resident(tv as int, 16),
            r.is_none() ==> *final(kernel) == *old(kernel),
            r.is_some() ==> {
                &&& spec_calling(*old(kernel), SyscallId::GetTimeOfDay, seq![tv, 0, 0, 0]).ecall_post(
                    *final(kernel),
                )
                &&& final(kernel).scheduler.current.0.is_some()
                &&& final(kernel).cur_space().spec_bytes_at(tv as int, 16).is_some()
                &&& r.unwrap() == Instant(
                    spec_duration_of(
                        spec_timeval(final(kernel).cur_space().spec_bytes_at(tv as int, 16).unwrap()),
                    ),
                )
                &&& r.unwrap().0.wf()
            },
    {
        if !kernel.user_resident(tv, 16) {
            return None;
        }
        let _ = get_time_of_day(kernel, tv);
        match kernel.user_read(tv, 16) {
            Some(bytes) => {
                let secs = u64_from_le_bytes(vstd::slice::slice_subrange(bytes.as_slice(), 0, 8));
                let usecs = u64_from_le_bytes(vstd::slice::slice_subrange(bytes.as_slice(), 8, 16));
                let pair = TimeVal {
                    secs: #[verifier::truncate]
                    (secs as isize),
                    usecs: #[verifier::truncate]
                    (usecs as isize),
                };
                Some(Instant(duration_of(pair)))
            },
            None => None,
        }
    }

    /// The span from `earlier` to this point in time. `earlier` must not be
    /// the later one.
    pub fn duration_since(&self, earlier: Instant) -> (d: Duration)
        requires
            self.0.wf(),
            earlier.0.wf(),
            earlier.0.total_nanos() <= self.0.total_nanos(),
        ensures
            d.wf(),
            d.total_nanos() == self.0.total_nanos() - earlier.0.total_nanos(),
    {
        self.0.sub(earlier.0)
    }

    /// The span from this point in time to `now`, which must not be the
    /// earlier one.
    pub fn elapsed(&self, now: Instant) -> (d: Duration)
        requires
            self.0.wf(),
            now.0.wf(),
            self.0.total_nanos() <= now.0.total_nanos(),
        ensures
            d.wf(),
            d.total_nanos() == now.0.total_nanos() - self.0.total_nanos(),
    {
        now.0.sub(self.0)
    }
}

/// One round of the idle task: it gives up the hart. The caller then waits
/// for an interrupt.
pub fn run_idle(kernel: &mut Kernel)
    requires
        old(kernel).wf(),
        old(kernel).scheduler.current.0.is_some(),
    ensures
        final(kernel).wf(),
        old(kernel).sys_sched_yield_post(*final(kernel), 0),
{
    let _ = kernel.sys_sched_yield();
}

} // verus!
