//! Register snapshots: the trap frame of a task and the context of a
//! kernel-side switch.

use vstd::prelude::*;

verus! {

/// The general registers, in the order in which the trap entry stores them.
#[derive(Clone, Copy, Debug, PartialEq, Eq, Structural)]
pub struct GeneralRegisters {
    pub ra: usize,
    pub sp: usize,
    pub gp: usize,
    pub tp: usize,
    pub t0: usize,
    pub t1: usize,
    pub t2: usize,
    pub s0: usize,
    pub s1: usize,
    pub a0: usize,
    pub a1: usize,
    pub a2: usize,
    pub a3: usize,
    pub a4: usize,
    pub a5: usize,
    pub a6: usize,
    pub a7: usize,
    pub s2: usize,
    pub s3: usize,
    pub s4: usize,
    pub s5: usize,
    pub s6: usize,
    pub s7: usize,
    pub s8: usize,
    pub s9: usize,
    pub s10: usize,
    pub s11: usize,
    pub t3: usize,
    pub t4: usize,
    pub t5: usize,
    pub t6: usize,
}

/// What is saved on entry to the kernel: the general registers, the program
/// counter to return to, and the status register.
#[derive(Clone, Copy, Debug, PartialEq, Eq, Structural)]
pub struct TrapFrame {
    pub regs: GeneralRegisters,
    pub sepc: usize,
    pub sstatus: usize,
}

/// Size of a trap frame in memory: 31 general registers, `sepc` and
/// `sstatus`, of eight bytes each.
pub const TRAP_FRAME_SIZE: usize = 264;

/// What a kernel-side switch saves and restores: the return address, the
/// stack pointer and the callee-saved registers.
#[derive(Clone, Copy, Debug, PartialEq, Eq, Structural)]
pub struct TaskContext {
    pub ra: usize,
    pub sp: usize,
    pub s0: usize,
    pub s1: usize,
    pub s2: usize,
    pub s3: usize,
    pub s4: usize,
    pub s5: usize,
    pub s6: usize,
    pub s7: usize,
    pub s8: usize,
    pub s9: usize,
    pub s10: usize,
    pub s11: usize,
}

impl GeneralRegisters {
    /// All registers zero.
    pub open spec fn spec_zero() -> Self {
        GeneralRegisters {
            ra: 0,
            sp: 0,
            gp: 0,
            tp: 0,
            t0: 0,
            t1: 0,
            t2: 0,
            s0: 0,
            s1: 0,
            a0: 0,
            a1: 0,
            a2: 0,
            a3: 0,
            a4: 0,
            a5: 0,
            a6: 0,
            a7: 0,
            s2: 0,
            s3: 0,
            s4: 0,
            s5: 0,
            s6: 0,
            s7: 0,
            s8: 0,
            s9: 0,
            s10: 0,
            s11: 0,
            t3: 0,
            t4: 0,
            t5: 0,
            t6: 0,
        }
    }
}

impl Default for GeneralRegisters {
    fn default() -> (r: Self)
        ensures
            r == GeneralRegisters::spec_zero(),
    {
        GeneralRegisters {
            ra: 0,
            sp: 0,
            gp: 0,
            tp: 0,
            t0: 0,
            t1: 0,
            t2: 0,
            s0: 0,
            s1: 0,
            a0: 0,
            a1: 0,
            a2: 0,
            a3: 0,
            a4: 0,
            a5: 0,
            a6: 0,
            a7: 0,
            s2: 0,
            s3: 0,
            s4: 0,
            s5: 0,
            s6: 0,
            s7: 0,
            s8: 0,
            s9: 0,
            s10: 0,
            s11: 0,
            t3: 0,
            t4: 0,
            t5: 0,
            t6: 0,
        }
    }
}

impl TrapFrame {
    /// All registers zero.
    pub open spec fn spec_zero() -> Self {
        TrapFrame { regs: GeneralRegisters::spec_zero(), sepc: 0, sstatus: 0 }
    }

    /// The six arguments of a system call: `a0` to `a5`.
    pub open spec fn spec_args(&self) -> Seq<usize> {
        seq![self.regs.a0, self.regs.a1, self.regs.a2, self.regs.a3, self.regs.a4, self.regs.a5]
    }

    /// The six arguments of a system call: `a0` to `a5`.
    pub fn args(&self) -> (a: [usize; 6])
        ensures
            a@ == self.spec_args(),
    {
        let a = [
            self.regs.a0,
            self.regs.a1,
            self.regs.a2,
            self.regs.a3,
            self.regs.a4,
            self.regs.a5,
        ];
        assert(a@ =~= self.spec_args());
        a
    }
}

impl Default for TrapFrame {
    fn default() -> (r: Self)
        ensures
            r == TrapFrame::spec_zero(),
    {
        TrapFrame { regs: GeneralRegisters::default(), sepc: 0, sstatus: 0 }
    }
}

/// The bit of `sstatus` that holds the privilege level to return to.
pub const SSTATUS_SPP: usize = 256;

/// The bit of `sstatus` that lets the kernel access user memory.
pub const SSTATUS_SUM: usize = 262144;

/// The status word of a task that returns to user mode: `sstatus` with the
/// previous-privilege bit cleared and the user-memory bit set.
pub open spec fn spec_user_sstatus(sstatus: usize) -> usize {
    (sstatus & !SSTATUS_SPP) | SSTATUS_SUM
}

/// The trap frame of a new task: the stack pointer at the top of the user
/// stack, the program counter at the entry point, `gp` and `tp` as the
/// kernel has them, and a status word that returns to user mode.
pub fn gen_trap_frame(ustack_top: usize, entry_point: usize, gp: usize, tp: usize, sstatus: usize) -> (tf:
    TrapFrame)
    ensures
        tf.regs == (GeneralRegisters { sp: ustack_top, gp, tp, ..GeneralRegisters::spec_zero() }),
        tf.sepc == entry_point,
        tf.sstatus == spec_user_sstatus(sstatus),
{
    let mut tf = TrapFrame::default();
    tf.regs.sp = ustack_top;
    tf.sepc = entry_point;
    tf.regs.tp = tp;
    tf.regs.gp = gp;
    tf.sstatus = (sstatus & !SSTATUS_SPP) | SSTATUS_SUM;
    tf
}

impl TaskContext {
    /// All registers zero.
    pub open spec fn spec_zero() -> Self {
        TaskContext {
            ra: 0,
            sp: 0,
            s0: 0,
            s1: 0,
            s2: 0,
            s3: 0,
            s4: 0,
            s5: 0,
            s6: 0,
            s7: 0,
            s8: 0,
            s9: 0,
            s10: 0,
            s11: 0,
        }
    }

    /// A context with all registers zero.
    pub fn new() -> (c: Self)
        ensures
            c == TaskContext::spec_zero(),
    {
        TaskContext {
            ra: 0,
            sp: 0,
            s0: 0,
            s1: 0,
            s2: 0,
            s3: 0,
            s4: 0,
            s5: 0,
            s6: 0,
            s7: 0,
            s8: 0,
            s9: 0,
            s10: 0,
            s11: 0,
        }
    }

    /// Prepares the context so that a switch to it continues at `entry` on
    /// the stack at `kstack_top`.
    pub fn init(&mut self, entry: usize, kstack_top: usize)
        ensures
            *final(self) == (TaskContext { ra: entry, sp: kstack_top, ..*old(self) }),
    {
        self.sp = kstack_top;
        self.ra = entry;
    }

    /// Switches the hart from this context to `next_ctx`: the registers of
    /// the hart are saved in this context and loaded from `next_ctx`.
    pub fn switch_to(&mut self, next_ctx: &Self, hart: &mut TaskContext)
        ensures
            *final(self) == *old(hart),
            *final(hart) == *next_ctx,
    {
        *self = *hart;
        *hart = *next_ctx;
    }
}

impl Default for TaskContext {
    fn default() -> (c: Self)
        ensures
            c == TaskContext::spec_zero(),
    {
        TaskContext::new()
    }
}

} // verus!
