//! Tasks: identity, state, registers, stacks and descriptors.

use crate::addr::spec_pages_for;
use crate::context::{TaskContext, TrapFrame, TRAP_FRAME_SIZE};
use crate::elf::{mem_of, spec_store};
use crate::fd::FdList;
use crate::flags::{CloneFlags, CLONE_VM};
use crate::frame::FrameAllocator;
use crate::memory_set::{copy_frames, is_copy, same_shape, total_resident, MemorySet};
use crate::stack::{TaskStack, TASK_STACK_SIZE};
use vstd::bytes::{spec_u64_to_le_bytes, u64_to_le_bytes};
use vstd::prelude::*;
use vstd::string::StringSliceAdditionalSpecFns;

verus! {

/// The states of a task.
#[derive(Clone, Copy, Debug, PartialEq, Eq, Structural)]
pub enum TaskState {
    Running,
    Ready,
    Blocked,
    Exited,
}

impl TaskState {
    /// The number that stands for the state: 1 for Running, 2 for Ready, 3
    /// for Blocked, 4 for Exited.
    pub fn as_u8(self) -> (n: u8)
        ensures
            n == (match self {
                TaskState::Running => 1u8,
                TaskState::Ready => 2u8,
                TaskState::Blocked => 3u8,
                TaskState::Exited => 4u8,
            }),
    {
        match self {
            TaskState::Running => 1,
            TaskState::Ready => 2,
            TaskState::Blocked => 3,
            TaskState::Exited => 4,
        }
    }
}

/// A task. Its address space is the one with number `memory_set` among the
/// address spaces of the kernel, which tasks may share.
pub struct Task {
    pub pid: usize,
    pub tid: usize,
    pub state: TaskState,
    pub ctx: TaskContext,
    pub memory_set: usize,
    pub kstack: TaskStack,
    pub ustack: usize,
    pub fd_table: FdList,
}

/// `after` is `before` with the stack pointer of its trap frame at `sp`;
/// nothing else of the task differs.
pub open spec fn sp_moved(before: Task, after: Task, sp: usize) -> bool {
    &&& after.spec_frame() == (TrapFrame {
        regs: crate::context::GeneralRegisters { sp, ..before.spec_frame().regs },
        ..before.spec_frame()
    })
    &&& after.kstack.spec_bottom() == before.kstack.spec_bottom()
    &&& after.kstack.spec_size() == before.kstack.spec_size()
    &&& after.pid == before.pid
    &&& after.tid == before.tid
    &&& after.state == before.state
    &&& after.ctx == before.ctx
    &&& after.memory_set == before.memory_set
    &&& after.ustack == before.ustack
    &&& after.fd_table == before.fd_table
}

/// The bytes of a sequence of machine words: eight bytes for each word, the
/// lowest first.
pub open spec fn words_bytes(vs: Seq<usize>) -> Seq<u8>
    decreases vs.len(),
{
    if vs.len() == 0 {
        Seq::empty()
    } else {
        words_bytes(vs.drop_last()) + spec_u64_to_le_bytes(vs.last() as u64)
    }
}

/// A sequence of words takes eight bytes for each word.
pub proof fn lemma_words_bytes_len(vs: Seq<usize>)
    ensures
        words_bytes(vs).len() == 8 * vs.len(),
    decreases vs.len(),
{
    if vs.len() > 0 {
        lemma_words_bytes_len(vs.drop_last());
        vstd::bytes::lemma_auto_spec_u64_to_from_le_bytes();
    }
}

/// The bytes of a sequence of machine words.
pub fn words_to_bytes(vs: &[usize]) -> (out: Vec<u8>)
    ensures
        out@ == words_bytes(vs@),
{
    let mut out: Vec<u8> = Vec::new();
    let mut i: usize = 0;
    while i < vs.len()
        invariant
            i <= vs@.len(),
            out@ == words_bytes(vs@.subrange(0, i as int)),
        decreases vs@.len() - i,
    {
        let bytes = u64_to_le_bytes(vs[i] as u64);
        out.extend_from_slice(bytes.as_slice());
        proof {
            let next = vs@.subrange(0, i + 1);
            assert(next.drop_last() =~= vs@.subrange(0, i as int));
            assert(next.last() == vs@[i as int]);
        }
        i += 1;
    }
    assert(vs@.subrange(0, vs@.len() as int) =~= vs@);
    out
}

/// The clone flags that a flag word stands for: the flag word without its
/// low six bits, which name a signal; `None` where it holds a flag other
/// than CLONE_VM.
pub open spec fn spec_clone_flags(flags: usize) -> Option<CloneFlags> {
    if ((flags as u32) & !0x3fu32) & !CLONE_VM == 0 {
        Some(CloneFlags { bits: (flags as u32) & !0x3fu32 })
    } else {
        None
    }
}

/// Whether a clone with these flags shares the address space of the parent.
pub open spec fn spec_shares_vm(flags: usize) -> bool {
    ((flags as u32) & !0x3fu32) & CLONE_VM == CLONE_VM
}

/// Number of frames that a clone takes: those of the kernel stack of the
/// child and, unless the address space is shared, one for the root of the
/// page table and one for each resident page of the parent.
pub open spec fn spec_clone_frames(parent_space: MemorySet, flags: usize) -> int {
    spec_pages_for(TASK_STACK_SIZE as int) + (if spec_shares_vm(flags) {
        0
    } else {
        1 + total_resident(parent_space.areas(), parent_space.areas().len() as int)
    })
}

/// `child` is what a clone of `parent` gives, where `root` is the first free
/// frame before. The child has the number `new_id` and is ready. It has a
/// kernel stack of its own, in the frames after those of its address space,
/// with the trap frame of the parent in which `a0` is 0 and, where
/// `user_stack` is not 0, `sp` is `user_stack`. Its context continues at
/// `task_entry` on its own
/// kernel stack, below the trap frame. It refers to the same file objects.
/// With CLONE_VM it shares the address space of the parent and no address
/// space is added; without, its address space is a new one, an independent
/// copy of that of the parent whose table has its root at `root` and whose
/// pages lie in the frames that follow, and the others are as they were.
pub open spec fn is_clone_of(
    child: Task,
    parent: Task,
    flags: usize,
    user_stack: usize,
    new_id: usize,
    task_entry: usize,
    old_spaces: Seq<MemorySet>,
    new_spaces: Seq<MemorySet>,
    root: int,
) -> bool {
    &&& child.pid == new_id
    &&& child.tid == new_id
    &&& child.state == TaskState::Ready
    &&& child.kstack.wf()
    &&& child.kstack.spec_size() == TASK_STACK_SIZE
    &&& child.kstack.spec_bottom() == root + 4096 * (spec_clone_frames(
        old_spaces[parent.memory_set as int],
        flags,
    ) - spec_pages_for(TASK_STACK_SIZE as int))
    &&& child.ctx == (TaskContext {
        ra: task_entry,
        sp: (child.kstack.spec_top() - TRAP_FRAME_SIZE) as usize,
        ..TaskContext::spec_zero()
    })
    &&& child.spec_frame() == (TrapFrame {
        regs: crate::context::GeneralRegisters {
            a0: 0,
            sp: if user_stack != 0 {
                user_stack
            } else {
                parent.spec_frame().regs.sp
            },
            ..parent.spec_frame().regs
        },
        ..parent.spec_frame()
    })
    &&& child.ustack == (if user_stack == 0 {
        parent.ustack
    } else {
        user_stack
    })
    &&& child.fd_table@ == parent.fd_table@
    &&& forall|i: int| 0 <= i < old_spaces.len() ==> #[trigger] new_spaces[i] == old_spaces[i]
    &&& spec_shares_vm(flags) ==> child.memory_set == parent.memory_set && new_spaces == old_spaces
    &&& !spec_shares_vm(flags) ==> {
        let space = old_spaces[parent.memory_set as int];
        let copy = new_spaces[child.memory_set as int];
        &&& child.memory_set == old_spaces.len()
        &&& new_spaces.len() == old_spaces.len() + 1
        &&& copy.wf()
        &&& copy.kernel_regions() == space.kernel_regions()
        &&& copy.spec_entry() == space.spec_entry()
        &&& copy.spec_page_table().root() == root
        &&& copy.areas().len() == space.areas().len()
        &&& forall|i: int|
            0 <= i < space.areas().len() ==> is_copy(#[trigger] copy.areas()[i], space.areas()[i])
                && copy_frames(
                copy.areas()[i],
                space.areas()[i],
                root + 4096 * (1 + total_resident(space.areas(), i)),
            )
    }
}

/// The clone flags that a flag word stands for.
pub fn clone_flags(flags: usize) -> (r: Option<CloneFlags>)
    ensures
        r == spec_clone_flags(flags),
{
    CloneFlags::from_bits((#[verifier::truncate] (flags as u32)) & !0x3fu32)
}

/// The decimal digits of `n`.
pub open spec fn dec_chars(n: nat) -> Seq<char>
    decreases n,
{
    if n < 10 {
        seq![(48 + n) as char]
    } else {
        dec_chars(n / 10) + seq![(48 + n % 10) as char]
    }
}

/// `format!("Task({}, {})", pid, tid)` writes the two numbers in decimal
/// between the fixed pieces of text.
#[verifier::external_body]
fn format_ids(pid: usize, tid: usize) -> (name: String)
    ensures
        name@ == "Task("@ + dec_chars(pid as nat) + ", "@ + dec_chars(tid as nat) + ")"@,
{
    format!("Task({}, {})", pid, tid)
}

impl Task {
    /// The task refers to an address space that exists, and its kernel
    /// stack is in order.
    pub open spec fn wf(&self, nspaces: int) -> bool {
        &&& self.memory_set < nspaces
        &&& self.kstack.wf()
        &&& self.fd_table@.len() < usize::MAX
    }

    /// The trap frame of the task.
    pub open spec fn spec_frame(&self) -> TrapFrame {
        self.kstack.spec_frame()
    }

    /// The task with `tf` as its trap frame.
    pub open spec fn with_frame(self, tf: TrapFrame) -> Task {
        Task { kstack: self.kstack.with_frame(tf), ..self }
    }

    /// Replaces the trap frame of the task.
    pub fn set_trap_frame(&mut self, tf: TrapFrame)
        ensures
            *final(self) == old(self).with_frame(tf),
            final(self).spec_frame() == tf,
            final(self).kstack.wf() == old(self).kstack.wf(),
    {
        proof {
            self.kstack.lemma_with_frame(tf);
        }
        self.kstack.set_trap_frame(tf);
    }

    /// Puts the task in the state `state`.
    pub fn set_state(&mut self, state: TaskState)
        ensures
            *final(self) == (Task { state, ..*old(self) }),
    {
        self.state = state;
    }

    /// Whether the task runs.
    pub fn is_running(&self) -> (r: bool)
        ensures
            r == (self.state == TaskState::Running),
    {
        self.state == TaskState::Running
    }

    /// Whether the task waits in the ready queue.
    pub fn is_ready(&self) -> (r: bool)
        ensures
            r == (self.state == TaskState::Ready),
    {
        self.state == TaskState::Ready
    }

    /// Whether the task is blocked.
    pub fn is_blocked(&self) -> (r: bool)
        ensures
            r == (self.state == TaskState::Blocked),
    {
        self.state == TaskState::Blocked
    }

    /// Whether this is the init task, the one with process number 1.
    pub fn is_init(&self) -> (r: bool)
        ensures
            r == (self.pid == 1),
    {
        self.pid == 1
    }

    /// The physical address of the root of the page table of the task.
    pub fn page_table_ppn(&self, spaces: &Vec<MemorySet>) -> (p: usize)
        requires
            self.memory_set < spaces@.len(),
        ensures
            p == spaces@[self.memory_set as int].spec_page_table().root(),
    {
        spaces[self.memory_set].page_table_root_ppn()
    }

    /// The address of the trap frame, at the top of the kernel stack.
    pub fn trap_frame_ptr(&self) -> (va: usize)
        requires
            self.kstack.wf(),
        ensures
            va == self.kstack.spec_top() - TRAP_FRAME_SIZE,
    {
        self.kstack.trap_frame_ptr()
    }

    /// The address of the trap frame, at the top of the kernel stack.
    pub fn trap_frame_ptr_mut(&self) -> (va: usize)
        requires
            self.kstack.wf(),
        ensures
            va == self.kstack.spec_top() - TRAP_FRAME_SIZE,
    {
        self.kstack.trap_frame_ptr_mut()
    }

    /// The context of the task, to be changed in place.
    pub fn ctx_mut_ptr(&mut self) -> (ctx: &mut TaskContext)
        ensures
            *ctx == old(self).ctx,
            *final(self) == (Task { ctx: *final(ctx), ..*old(self) }),
    {
        &mut self.ctx
    }

    /// The descriptors of the task.
    pub fn fd_table(&self) -> (t: &FdList)
        ensures
            *t == self.fd_table,
    {
        &self.fd_table
    }

    /// Pushes `vs` on the user stack: lowers the stack pointer of the trap
    /// frame by the length of `vs` and stores `vs` there. The target must
    /// lie in resident pages of `space`, the address space of the task.
    /// Returns the new stack pointer.
    pub fn push_bytes(&mut self, vs: &[u8], space: &mut MemorySet) -> (sp: usize)
        requires
            old(space).wf(),
            old(self).spec_frame().regs.sp >= vs@.len(),
            old(space).spec_range_resident(
                old(self).spec_frame().regs.sp - vs@.len(),
                vs@.len() as int,
            ),
        ensures
            sp == old(self).spec_frame().regs.sp - vs@.len(),
            sp_moved(*old(self), *final(self), sp),
            final(space).wf(),
            final(space).kernel_regions() == old(space).kernel_regions(),
            final(space).spec_entry() == old(space).spec_entry(),
            final(space).spec_page_table() == old(space).spec_page_table(),
            same_shape(old(space).areas(), final(space).areas()),
            forall|x: int|
                #[trigger] final(space).spec_byte_at(x) == spec_store(
                    mem_of(*old(space)),
                    sp as int,
                    vs@,
                )(x),
    {
        let tf = self.kstack.trap_frame_mut();
        let sp: usize = tf.regs.sp - vs.len();
        tf.regs.sp = sp;
        let stored = space.write_bytes(sp, vs);
        assert(stored);
        sp
    }

    /// Pushes the words `vs` on the user stack: lowers the stack pointer of
    /// the trap frame by eight bytes for each word, then to a multiple of
    /// eight, and stores the words there, each with its lowest byte first.
    /// Returns the new stack pointer.
    pub fn push_slice(&mut self, vs: &[usize], space: &mut MemorySet) -> (sp: usize)
        requires
            old(space).wf(),
            old(self).spec_frame().regs.sp >= 8 * vs@.len(),
            old(space).spec_range_resident(
                (old(self).spec_frame().regs.sp - 8 * vs@.len()) - (old(self).spec_frame().regs.sp
                    - 8 * vs@.len()) % 8,
                8 * vs@.len() as int,
            ),
        ensures
            sp == (old(self).spec_frame().regs.sp - 8 * vs@.len()) - (old(
                self,
            ).spec_frame().regs.sp - 8 * vs@.len()) % 8,
            sp_moved(*old(self), *final(self), sp),
            final(space).wf(),
            final(space).kernel_regions() == old(space).kernel_regions(),
            final(space).spec_entry() == old(space).spec_entry(),
            final(space).spec_page_table() == old(space).spec_page_table(),
            same_shape(old(space).areas(), final(space).areas()),
            forall|x: int|
                #[trigger] final(space).spec_byte_at(x) == spec_store(
                    mem_of(*old(space)),
                    sp as int,
                    words_bytes(vs@),
                )(x),
    {
        let bytes = words_to_bytes(vs);
        proof {
            lemma_words_bytes_len(vs@);
        }
        let tf = self.kstack.trap_frame_mut();
        let mut sp: usize = tf.regs.sp - vs.len() * 8;
        sp = sp - sp % 8;
        tf.regs.sp = sp;
        let stored = space.write_bytes(sp, bytes.as_slice());
        assert(stored);
        sp
    }

    /// Pushes the string `s` on the user stack, followed by a zero byte.
    /// Returns the address of the string, which is the new stack pointer.
    pub fn push_str(&mut self, s: &str, space: &mut MemorySet) -> (sp: usize)
        requires
            old(space).wf(),
            old(self).spec_frame().regs.sp >= s.spec_bytes().len() + 1,
            old(space).spec_range_resident(
                old(self).spec_frame().regs.sp - s.spec_bytes().len() - 1,
                s.spec_bytes().len() as int + 1,
            ),
        ensures
            sp == old(self).spec_frame().regs.sp - s.spec_bytes().len() - 1,
            sp_moved(*old(self), *final(self), sp),
            final(space).wf(),
            final(space).kernel_regions() == old(space).kernel_regions(),
            final(space).spec_entry() == old(space).spec_entry(),
            final(space).spec_page_table() == old(space).spec_page_table(),
            same_shape(old(space).areas(), final(space).areas()),
            forall|x: int|
                #[trigger] final(space).spec_byte_at(x) == spec_store(
                    mem_of(*old(space)),
                    sp as int,
                    s.spec_bytes() + seq![0u8],
                )(x),
    {
        let ghost space0 = *space;
        let ghost sp0 = self.spec_frame().regs.sp as int;
        let zero: [u8; 1] = [0u8];
        assert(zero@ =~= seq![0u8]);
        assert(space.spec_range_resident(sp0 - 1, 1)) by {
            assert forall|x: int| sp0 - 1 <= x < sp0 - 1 + 1 implies (#[trigger] space.spec_byte_at(
                x,
            )).is_some() by {}
        }
        let _ = self.push_bytes(zero.as_slice(), space);
        let ghost space1 = *space;
        let bytes = s.as_bytes();
        assert(space.spec_range_resident(sp0 - 1 - bytes@.len(), bytes@.len() as int)) by {
            assert forall|x: int| sp0 - 1 - bytes@.len() <= x < sp0 - 1 implies (#[trigger] space.spec_byte_at(
                x,
            )).is_some() by {
                assert(space0.spec_byte_at(x).is_some());
            }
        }
        let sp = self.push_bytes(bytes, space);
        proof {
            crate::memory_set::lemma_same_shape_trans(space0.areas(), space1.areas(), space.areas());
            assert forall|x: int|
                #[trigger] space.spec_byte_at(x) == spec_store(
                    mem_of(space0),
                    sp as int,
                    s.spec_bytes() + seq![0u8],
                )(x) by {
                assert(space1.spec_byte_at(x) == spec_store(mem_of(space0), sp0 - 1, seq![0u8])(x));
            }
        }
        sp
    }

    /// Marks the init task as running. Only the task with process and thread
    /// number 1 enters user mode in this way.
    pub fn enter_as_init(&mut self)
        requires
            old(self).pid == 1,
            old(self).tid == 1,
        ensures
            *final(self) == (Task { state: TaskState::Running, ..*old(self) }),
    {
        self.set_state(TaskState::Running);
    }

    /// Tasks do not wait in queues; nothing is recorded.
    pub fn set_in_wait_queue(&self, _in_queue: bool) {
    }

    /// The name of the task: `Task(pid, tid)`.
    pub fn id_name(&self) -> (name: String)
        ensures
            name@ == "Task("@ + dec_chars(self.pid as nat) + ", "@ + dec_chars(self.tid as nat)
                + ")"@,
    {
        format_ids(self.pid, self.tid)
    }

    /// Creates a child of the task, as `fork` does. The child gets the
    /// number `new_id`. It shares the address space of the parent where
    /// `flags` hold CLONE_VM, else it gets an independent copy. It gets a
    /// kernel stack of its own with a copy of the trap frame of the parent,
    /// in which `a0` is 0 and, where `user_stack` is not 0, `sp` is
    /// `user_stack`. Its context continues at `task_entry`, which restores
    /// the trap frame and returns to user mode. It refers to the same file
    /// objects as the parent.
    pub fn clone(
        &self,
        flags: usize,
        user_stack: usize,
        new_id: usize,
        task_entry: usize,
        spaces: &mut Vec<MemorySet>,
        frames: &mut FrameAllocator,
    ) -> (child: Task)
        requires
            self.wf(old(spaces)@.len() as int),
            forall|i: int| 0 <= i < old(spaces)@.len() ==> (#[trigger] old(spaces)@[i]).wf(),
            old(frames).wf(),
            spec_clone_flags(flags).is_some(),
            old(frames).spec_free_frames() >= spec_clone_frames(
                old(spaces)@[self.memory_set as int],
                flags,
            ),
        ensures
            is_clone_of(
                child,
                *self,
                flags,
                user_stack,
                new_id,
                task_entry,
                old(spaces)@,
                final(spaces)@,
                old(frames).next_paddr() as int,
            ),
            child.wf(final(spaces)@.len() as int),
            forall|i: int|
                0 <= i < old(spaces)@.len() ==> #[trigger] final(spaces)@[i] == old(spaces)@[i],
            final(frames).wf(),
            final(frames).end_paddr() == old(frames).end_paddr(),
            final(frames).returned() == old(frames).returned(),
            final(frames).next_paddr() == old(frames).next_paddr() + 4096 * spec_clone_frames(
                old(spaces)@[self.memory_set as int],
                flags,
            ),
    {
        let flags = clone_flags(flags).unwrap();
        let ghost parent = spaces@[self.memory_set as int];
        proof {
            crate::memory_set::lemma_total_resident(
                parent.areas(),
                0,
                parent.areas().len() as int,
            );
        }
        let memory_set: usize = if flags.contains(CLONE_VM) {
            self.memory_set
        } else {
            assert(spaces@[self.memory_set as int].wf());
            let copy = spaces[self.memory_set].clone_mapped(frames);
            spaces.push(copy);
            spaces.len() - 1
        };
        let mut kstack = TaskStack::alloc_stack(TASK_STACK_SIZE, frames);
        let parent_frame: TrapFrame = *self.kstack.trap_frame();
        let trap_frame = kstack.trap_frame_mut();
        *trap_frame = parent_frame;
        trap_frame.regs.a0 = 0;
        if user_stack != 0 {
            trap_frame.regs.sp = user_stack;
        }
        let ustack: usize = if user_stack == 0 {
            self.ustack
        } else {
            user_stack
        };
        let mut ctx = TaskContext::new();
        ctx.init(task_entry, kstack.top() - TRAP_FRAME_SIZE);
        Task {
            pid: new_id,
            tid: new_id,
            state: TaskState::Ready,
            ctx,
            memory_set,
            kstack,
            ustack,
            fd_table: self.fd_table.duplicate(),
        }
    }
}

} // verus!
