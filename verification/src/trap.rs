//! The trap plane: what the kernel does on entry from a trap.

use crate::context::{GeneralRegisters, TrapFrame};
use crate::dispatch::{can_serve, syscall, syscall_post, syscall_served};
use crate::flags::MappingFlags;
use crate::kernel::Kernel;
use crate::memory_set::page_fault_post;
use crate::syscall::SyscallId;
use vstd::prelude::*;

verus! {

/// The causes of a trap that the kernel tells apart.
#[derive(Clone, Copy, Debug, PartialEq, Eq, Structural)]
pub enum TrapCause {
    Breakpoint,
    UserEnvCall,
    InstructionPageFault,
    LoadPageFault,
    StorePageFault,
    /// An interrupt, with the bits of the cause register.
    Interrupt(usize),
    /// Any other cause, with the bits of the cause register.
    Other(usize),
}

/// What is left to do once the kernel has handled a trap.
#[derive(Clone, Copy, Debug, PartialEq, Eq, Structural)]
pub enum TrapOutcome {
    /// The trap frame of the current task is restored and the task goes on.
    Resume,
    /// The interrupt is handed to the interrupt router of the platform; then
    /// the interrupted context goes on.
    DispatchIrq(usize),
}

/// The interface through which the trap entry of the platform reaches the
/// kernel.
pub trait TrapHandler {
    spec fn trap_ready(&self) -> bool;

    /// Whether the system call can be served.
    spec fn ecall_served(&self, syscall_id: usize, args: Seq<usize>) -> bool;

    /// Whether the page fault can be resolved.
    spec fn fault_served(&self, addr: usize, flags: MappingFlags) -> bool;

    fn handle_irq(&mut self, irq_num: usize) -> (out: TrapOutcome)
        requires
            old(self).trap_ready(),
        ensures
            final(self).trap_ready(),
    ;

    fn handle_user_ecall(&mut self, syscall_id: usize, args: [usize; 6]) -> (r: isize)
        requires
            old(self).trap_ready(),
            old(self).ecall_served(syscall_id, args@),
    ;

    fn handle_page_fault(&mut self, addr: usize, flags: MappingFlags)
        requires
            old(self).trap_ready(),
            old(self).fault_served(addr, flags),
        ensures
            final(self).trap_ready(),
    ;
}

/// The access that a page fault of the given cause stands for: an access
/// from user mode to execute, to read or to write.
pub open spec fn spec_fault_flags(cause: TrapCause) -> MappingFlags {
    MappingFlags {
        user: true,
        execute: cause == TrapCause::InstructionPageFault,
        read: cause == TrapCause::LoadPageFault,
        write: cause == TrapCause::StorePageFault,
    }
}

/// Steps over a breakpoint: the program counter moves on by 2.
pub fn handle_breakpoint(sepc: &mut usize)
    requires
        *old(sepc) + 2 <= usize::MAX,
    ensures
        *final(sepc) == *old(sepc) + 2,
{
    *sepc += 2;
}

impl Kernel {
    /// The kernel with `a0` of the trap frame of the current task set to `r`.
    pub open spec fn with_result(&self, r: usize) -> Kernel {
        self.with_current(
            self.cur().with_frame(
                TrapFrame {
                    regs: GeneralRegisters { a0: r, ..self.cur().spec_frame().regs },
                    ..self.cur().spec_frame()
                },
            ),
        )
    }

    /// The kernel with the program counter of the trap frame of the current
    /// task moved on by `n`.
    pub open spec fn with_step(&self, n: int) -> Kernel {
        self.with_current(
            self.cur().with_frame(
                TrapFrame {
                    sepc: (self.cur().spec_frame().sepc + n) as usize,
                    ..self.cur().spec_frame()
                },
            ),
        )
    }

    /// Whether a trap is fatal. A breakpoint or a system call is fatal where
    /// the program counter cannot move on. A system call is fatal where it
    /// cannot be served: its number is not that of a system call, the last
    /// task tries to exit without being the init task, or it reads from
    /// standard output or standard error or writes to standard input. A page fault is
    /// fatal where it comes from the kernel, where no area covers the
    /// address or permits the access, where the page is resident already,
    /// and where no frame is left. An interrupt is never fatal. Every other
    /// cause is.
    pub open spec fn trap_fatal(&self, cause: TrapCause, stval: usize, from_user: bool) -> bool {
        match cause {
            TrapCause::Breakpoint => self.cur().spec_frame().sepc + 2 > usize::MAX,
            TrapCause::UserEnvCall => self.cur().spec_frame().sepc + 4 > usize::MAX || !syscall_served(
                *self,
                self.cur().spec_frame().regs.a7,
                self.cur().spec_frame().spec_args(),
            ),
            TrapCause::Interrupt(bits) => false,
            TrapCause::Other(bits) => true,
            _ => !from_user || !self.cur_space().fault_resolvable(
                stval as int,
                spec_fault_flags(cause),
            ) || self.frames.spec_single_frames() < 1,
        }
    }

    /// What the kernel does on a system call trap. The program counter of
    /// the caller moves on by 4. Then the system call whose number is in
    /// `a7` is served with the arguments in `a0` to `a5`, and its result is
    /// stored in `a0` of the caller. For `sched_yield` the result, 0, is
    /// stored before the task gives up the hart. A task that exits gets no
    /// result.
    pub open spec fn ecall_post(&self, post: Kernel) -> bool {
        let tf = self.cur().spec_frame();
        let entered = self.with_step(4);
        match SyscallId::spec_from_usize(tf.regs.a7) {
            Some(SyscallId::Exit) => syscall_post(entered, post, tf.regs.a7, tf.spec_args(), 0),
            Some(SyscallId::ExitGroup) => syscall_post(entered, post, tf.regs.a7, tf.spec_args(), 0),
            Some(SyscallId::SchedYield) => syscall_post(
                entered.with_result(0),
                post,
                tf.regs.a7,
                tf.spec_args(),
                0,
            ),
            Some(id) => exists|mid: Kernel, r: isize| #[trigger]
                syscall_post(entered, mid, tf.regs.a7, tf.spec_args(), r) && mid.scheduler.current.0.is_some()
                    && post == mid.with_result(r as usize),
            None => false,
        }
    }

    /// What the kernel does on a trap: see `ecall_post` for a system call. On
    /// a breakpoint the program counter moves on by 2. On a page fault the
    /// page is brought in. An interrupt changes nothing; it is handed on.
    pub open spec fn trap_post(&self, post: Kernel, cause: TrapCause, stval: usize, out: TrapOutcome) -> bool {
        match cause {
            TrapCause::Breakpoint => out == TrapOutcome::Resume && post == self.with_step(2),
            TrapCause::UserEnvCall => out == TrapOutcome::Resume && self.ecall_post(post),
            TrapCause::Interrupt(bits) => out == TrapOutcome::DispatchIrq(bits) && post == *self,
            TrapCause::Other(bits) => false,
            _ => {
                &&& out == TrapOutcome::Resume
                &&& post == (Kernel { spaces: post.spaces, frames: post.frames, ..*self })
                &&& self.only_cur_space_changed(post)
                &&& self.frames.page_taken(post.frames)
                &&& page_fault_post(
                    self.cur_space().areas(),
                    post.cur_space().areas(),
                    stval as int,
                    self.fs.files(),
                    self.frames.spec_next_page() as int,
                )
                &&& post.cur_space().spec_byte_at(stval as int).is_some()
            },
        }
    }

    /// Whether a trap is fatal: see `trap_fatal`.
    pub fn trap_is_fatal(&self, cause: TrapCause, stval: usize, from_user: bool) -> (r: bool)
        requires
            self.wf(),
            self.scheduler.current.0.is_some(),
        ensures
            r == self.trap_fatal(cause, stval, from_user),
    {
        let tf: TrapFrame = match &self.scheduler.current.0 {
            Some(t) => *t.kstack.trap_frame(),
            None => TrapFrame::default(),
        };
        match cause {
            TrapCause::Breakpoint => tf.sepc > usize::MAX - 2,
            TrapCause::UserEnvCall => tf.sepc > usize::MAX - 4 || !can_serve(self, tf.regs.a7, tf.args()),
            TrapCause::Interrupt(_) => false,
            TrapCause::Other(_) => true,
            _ => {
                if !from_user {
                    return true;
                }
                let id: usize = match &self.scheduler.current.0 {
                    Some(t) => t.memory_set,
                    None => 0,
                };
                assert(self.spaces@[id as int].wf());
                let flags = fault_flags(cause);
                !self.spaces[id].fault_check(stval, flags) || !self.frames.has_page()
            },
        }
    }

    /// Sets `a0` of the trap frame of the current task.
    pub fn set_result(&mut self, r: usize)
        requires
            old(self).wf(),
            old(self).scheduler.current.0.is_some(),
        ensures
            final(self).wf(),
            *final(self) == old(self).with_result(r),
    {
        let mut t = self.take_current();
        let mut tf: TrapFrame = *t.kstack.trap_frame();
        tf.regs.a0 = r;
        proof {
            t.kstack.lemma_with_frame(tf);
        }
        t.set_trap_frame(tf);
        proof {
            self.with_current(t).lemma_current_replaced(*old(self), t);
        }
        self.put_current(t);
    }

    /// Moves the program counter of the trap frame of the current task on
    /// by `n`.
    pub fn step(&mut self, n: usize)
        requires
            old(self).wf(),
            old(self).scheduler.current.0.is_some(),
            old(self).cur().spec_frame().sepc + n <= usize::MAX,
        ensures
            final(self).wf(),
            *final(self) == old(self).with_step(n as int),
    {
        let mut t = self.take_current();
        let mut tf: TrapFrame = *t.kstack.trap_frame();
        tf.sepc = tf.sepc + n;
        proof {
            t.kstack.lemma_with_frame(tf);
        }
        t.set_trap_frame(tf);
        proof {
            self.with_current(t).lemma_current_replaced(*old(self), t);
        }
        self.put_current(t);
    }
}

impl TrapHandler for Kernel {
    open spec fn trap_ready(&self) -> bool {
        self.wf() && self.scheduler.current.0.is_some()
    }

    open spec fn ecall_served(&self, syscall_id: usize, args: Seq<usize>) -> bool {
        syscall_served(*self, syscall_id, args)
    }

    open spec fn fault_served(&self, addr: usize, flags: MappingFlags) -> bool {
        self.cur_space().fault_resolvable(addr as int, flags) && self.frames.spec_single_frames() >= 1
    }

    /// An interrupt is handed on to the interrupt router of the platform.
    fn handle_irq(&mut self, irq_num: usize) -> (out: TrapOutcome)
        ensures
            out == TrapOutcome::DispatchIrq(irq_num),
            *final(self) == *old(self),
    {
        TrapOutcome::DispatchIrq(irq_num)
    }

    fn handle_user_ecall(&mut self, syscall_id: usize, args: [usize; 6]) -> (r: isize)
        ensures
            final(self).wf(),
            syscall_post(*old(self), *final(self), syscall_id, args@, r),
    {
        syscall(self, syscall_id, args)
    }

    fn handle_page_fault(&mut self, addr: usize, flags: MappingFlags)
        ensures
            page_fault_post(
                old(self).cur_space().areas(),
                final(self).cur_space().areas(),
                addr as int,
                old(self).fs.files(),
                old(self).frames.spec_next_page() as int,
            ),
    {
        Kernel::handle_page_fault(self, addr, flags)
    }
}

/// The access that a page fault of the given cause stands for.
pub fn fault_flags(cause: TrapCause) -> (f: MappingFlags)
    ensures
        f == spec_fault_flags(cause),
{
    match cause {
        TrapCause::InstructionPageFault => MappingFlags::user_rwx(false, false, true),
        TrapCause::LoadPageFault => MappingFlags::user_rwx(true, false, false),
        TrapCause::StorePageFault => MappingFlags::user_rwx(false, true, false),
        _ => MappingFlags::user_only(),
    }
}

/// Handles a trap of the current task. `stval` is the address of a page
/// fault; `from_user` says whether the trap comes from user mode.
pub fn riscv_trap_handler(kernel: &mut Kernel, cause: TrapCause, stval: usize, from_user: bool) -> (out:
    TrapOutcome)
    requires
        old(kernel).wf(),
        old(kernel).scheduler.current.0.is_some(),
        !old(kernel).trap_fatal(cause, stval, from_user),
    ensures
        final(kernel).wf(),
        old(kernel).trap_post(*final(kernel), cause, stval, out),
{
    match cause {
        TrapCause::Breakpoint => {
            kernel.step(2);
            TrapOutcome::Resume
        },
        TrapCause::UserEnvCall => {
            let tf: TrapFrame = match &kernel.scheduler.current.0 {
                Some(t) => *t.kstack.trap_frame(),
                None => TrapFrame::default(),
            };
            kernel.step(4);
            let ghost entered = *kernel;
            proof {
                kernel.cur().kstack.lemma_with_frame(kernel.cur().spec_frame());
                old(kernel).cur().kstack.lemma_with_frame(
                    TrapFrame { sepc: (tf.sepc + 4) as usize, ..tf },
                );
            }
            match SyscallId::from_usize(tf.regs.a7) {
                Some(SyscallId::Exit) => {
                    let _ = syscall(kernel, tf.regs.a7, tf.args());
                },
                Some(SyscallId::ExitGroup) => {
                    let _ = syscall(kernel, tf.regs.a7, tf.args());
                },
                Some(SyscallId::SchedYield) => {
                    kernel.set_result(0);
                    let _ = syscall(kernel, tf.regs.a7, tf.args());
                },
                _ => {
                    let r = syscall(kernel, tf.regs.a7, tf.args());
                    let ghost mid = *kernel;
                    proof {
                        lemma_call_keeps_current(entered, mid, tf.regs.a7, tf.spec_args(), r);
                    }
                    kernel.set_result(#[verifier::truncate] (r as usize));
                    assert(syscall_post(entered, mid, tf.regs.a7, tf.spec_args(), r)
                        && mid.scheduler.current.0.is_some() && *kernel == mid.with_result(
                        r as usize,
                    ));
                },
            }
            TrapOutcome::Resume
        },
        TrapCause::Interrupt(bits) => TrapOutcome::DispatchIrq(bits),
        TrapCause::Other(_) => TrapOutcome::Resume,
        _ => {
            let flags = fault_flags(cause);
            kernel.handle_page_fault(stval, flags);
            TrapOutcome::Resume
        },
    }
}

/// A system call other than `exit`, `exit_group` and `sched_yield` leaves
/// the caller as the current task, with the trap frame that it had.
pub proof fn lemma_call_keeps_current(pre: Kernel, post: Kernel, id: usize, args: Seq<usize>, r: isize)
    requires
        pre.scheduler.current.0.is_some(),
        syscall_post(pre, post, id, args, r),
        id != 93 && id != 94 && id != 124,
    ensures
        post.scheduler.current.0.is_some(),
        post.cur().spec_frame() == pre.cur().spec_frame(),
        post.cur().tid == pre.cur().tid,
{
}

/// Every system call that returns to its caller returns by the same rule:
/// the result is in `a0` of the caller, and the program counter of the
/// caller has moved on by exactly 4.
pub proof fn lemma_return_convention(pre: Kernel, post: Kernel)
    requires
        pre.scheduler.current.0.is_some(),
        pre.ecall_post(post),
        pre.cur().spec_frame().sepc + 4 <= usize::MAX,
        pre.cur().spec_frame().regs.a7 != 93,
        pre.cur().spec_frame().regs.a7 != 94,
        pre.cur().spec_frame().regs.a7 != 124,
    ensures
        post.scheduler.current.0.is_some(),
        post.cur().tid == pre.cur().tid,
        post.cur().spec_frame().sepc == pre.cur().spec_frame().sepc + 4,
        exists|mid: Kernel, r: isize| #[trigger]
            syscall_post(
                pre.with_step(4),
                mid,
                pre.cur().spec_frame().regs.a7,
                pre.cur().spec_frame().spec_args(),
                r,
            ) && post.cur().spec_frame().regs.a0 == r as usize,
{
    let tf = pre.cur().spec_frame();
    let entered = pre.with_step(4);
    pre.cur().kstack.lemma_with_frame(TrapFrame { sepc: (tf.sepc + 4) as usize, ..tf });
    let (mid, r) = choose|mid: Kernel, r: isize| #[trigger]
        syscall_post(entered, mid, tf.regs.a7, tf.spec_args(), r) && mid.scheduler.current.0.is_some()
            && post == mid.with_result(r as usize);
    lemma_call_keeps_current(entered, mid, tf.regs.a7, tf.spec_args(), r);
    mid.cur().kstack.lemma_with_frame(
        TrapFrame {
            regs: GeneralRegisters { a0: r as usize, ..mid.cur().spec_frame().regs },
            ..mid.cur().spec_frame()
        },
    );
    assert(syscall_post(entered, mid, tf.regs.a7, tf.spec_args(), r) && post.cur().spec_frame().regs.a0
        == r as usize);
}

/// A task that gives up the hart by `sched_yield` finds, when it runs
/// again, 0 in `a0` and its program counter moved on by exactly 4: its trap
/// frame is at the back of the ready queue, or in the current task where no
/// other task was ready.
pub proof fn lemma_yield_convention(pre: Kernel, post: Kernel)
    requires
        pre.wf(),
        pre.scheduler.current.0.is_some(),
        pre.ecall_post(post),
        pre.cur().spec_frame().sepc + 4 <= usize::MAX,
        pre.cur().spec_frame().regs.a7 == 124,
    ensures
        ({
            let caller = if pre.scheduler.queue().len() == 0 {
                post.cur()
            } else {
                post.scheduler.queue().last()
            };
            &&& caller.tid == pre.cur().tid
            &&& caller.spec_frame().sepc == pre.cur().spec_frame().sepc + 4
            &&& caller.spec_frame().regs.a0 == 0
        }),
{
    let tf = pre.cur().spec_frame();
    let entered = pre.with_step(4);
    let stepped = TrapFrame { sepc: (tf.sepc + 4) as usize, ..tf };
    pre.cur().kstack.lemma_with_frame(stepped);
    let ready = entered.with_result(0);
    entered.cur().kstack.lemma_with_frame(
        TrapFrame { regs: GeneralRegisters { a0: 0, ..stepped.regs }, ..stepped },
    );
    let q1 = crate::scheduler::spec_requeue(ready.scheduler.queue(), ready.cur(), ready.hart.regs);
    assert(ready.cur().state == crate::task::TaskState::Running);
    assert(q1.last().tid == pre.cur().tid);
    if pre.scheduler.queue().len() == 0 {
        assert(q1.len() == 1);
    } else {
        assert(q1.drop_first().last() == q1.last());
    }
}

} // verus!
