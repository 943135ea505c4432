//! The state of the kernel: the address spaces, the scheduler with its
//! tasks, and the platform services that the core relies on.

use crate::console::Console;
use crate::elf::{mem_of, spec_store};
use crate::file::FileSystem;
use crate::frame::FrameAllocator;
use crate::memory_set::{areas_backed, lemma_shape_backed, same_shape, MemorySet};
use crate::scheduler::{CurrentTask, Hart, Scheduler};
use crate::task::{Task, TaskState};
use crate::time::{Clock, NANOS_PER_TICK};
use vstd::prelude::*;

verus! {

/// The kernel with its tasks and the machine that it runs on.
pub struct Kernel {
    /// The ready queue, the current task and the counter of task numbers.
    pub scheduler: Scheduler,
    /// The address spaces; tasks refer to them by number.
    pub spaces: Vec<MemorySet>,
    /// The pool of free physical memory.
    pub frames: FrameAllocator,
    /// The stored files and the open files.
    pub fs: FileSystem,
    /// What was put out on the console, and what waits to be read from it.
    pub console: Console,
    /// The timer of the platform.
    pub clock: Clock,
    /// What the kernel changes of the hart.
    pub hart: Hart,
    /// The address of the routine at which a new task starts in the kernel:
    /// it restores the trap frame and returns to user mode.
    pub task_entry: usize,
}

/// `after` is `before` with `data` stored from `va` on: the same areas with
/// the same pages, the same table, and the bytes changed.
pub open spec fn user_stored(before: MemorySet, after: MemorySet, va: int, data: Seq<u8>) -> bool {
    &&& after.wf()
    &&& after.kernel_regions() == before.kernel_regions()
    &&& after.spec_entry() == before.spec_entry()
    &&& after.spec_page_table() == before.spec_page_table()
    &&& same_shape(before.areas(), after.areas())
    &&& forall|x: int| #[trigger] after.spec_byte_at(x) == spec_store(mem_of(before), va, data)(x)
}

/// The address spaces `after` are `before` with `data` stored from `va` on
/// in the one with number `id`; the others are unchanged.
pub open spec fn spaces_stored(
    before: Seq<MemorySet>,
    after: Seq<MemorySet>,
    id: int,
    va: int,
    data: Seq<u8>,
) -> bool {
    &&& after.len() == before.len()
    &&& forall|j: int| 0 <= j < before.len() && j != id ==> #[trigger] after[j] == before[j]
    &&& user_stored(before[id], after[id], va, data)
}

/// A store in one address space is not seen in any other: every other
/// address space is the same before and after, and so is every byte that a
/// read of it observes. A store in an address space is seen by all tasks
/// that refer to it, since they read the same address space.
pub proof fn lemma_store_is_local(
    before: Seq<MemorySet>,
    after: Seq<MemorySet>,
    id: int,
    other: int,
    va: int,
    data: Seq<u8>,
    x: int,
)
    requires
        0 <= id < before.len(),
        0 <= other < before.len(),
        spaces_stored(before, after, id, va, data),
    ensures
        other != id ==> after[other].spec_byte_at(x) == before[other].spec_byte_at(x),
        other == id && va <= x < va + data.len() ==> after[other].spec_byte_at(x) == Some(
            data[x - va],
        ),
{
    if other == id {
        assert(after[id].spec_byte_at(x) == spec_store(mem_of(before[id]), va, data)(x));
    }
}

/// A fork keeps parent and child apart or together, as the flags say.
/// Without CLONE_VM the child has an address space of its own: a store in
/// the address space of either is not seen in that of the other. With
/// CLONE_VM the two have one address space: a store by either is in the
/// address space of the other.
pub proof fn lemma_fork_independence(
    child: Task,
    parent: Task,
    flags: usize,
    user_stack: usize,
    new_id: usize,
    task_entry: usize,
    before: Seq<MemorySet>,
    forked: Seq<MemorySet>,
    root: int,
    after: Seq<MemorySet>,
    writer: int,
    va: int,
    data: Seq<u8>,
    x: int,
)
    requires
        parent.memory_set < before.len(),
        crate::task::is_clone_of(child, parent, flags, user_stack, new_id, task_entry, before, forked, root),
        writer == parent.memory_set || writer == child.memory_set,
        spaces_stored(forked, after, writer, va, data),
    ensures
        !crate::task::spec_shares_vm(flags) ==> child.memory_set != parent.memory_set && ({
            let other = if writer == parent.memory_set {
                child.memory_set as int
            } else {
                parent.memory_set as int
            };
            after[other].spec_byte_at(x) == forked[other].spec_byte_at(x)
        }),
        crate::task::spec_shares_vm(flags) ==> child.memory_set == parent.memory_set && (va <= x < va
            + data.len() ==> after[parent.memory_set as int].spec_byte_at(x) == Some(data[x - va])
            && after[child.memory_set as int].spec_byte_at(x) == Some(data[x - va])),
{
    if crate::task::spec_shares_vm(flags) {
        lemma_store_is_local(forked, after, writer, writer, va, data, x);
    } else {
        let other = if writer == parent.memory_set {
            child.memory_set as int
        } else {
            parent.memory_set as int
        };
        lemma_store_is_local(forked, after, writer, other, va, data, x);
    }
}

impl Kernel {
    /// The task that runs.
    pub open spec fn cur(&self) -> Task {
        self.scheduler.current.0.unwrap()
    }

    /// The address space of the task that runs.
    pub open spec fn cur_space(&self) -> MemorySet {
        self.spaces@[self.cur().memory_set as int]
    }

    /// Every address space is in order, and the backends of its areas refer
    /// to stored files.
    pub open spec fn spaces_wf(&self) -> bool {
        forall|i: int|
            0 <= i < self.spaces@.len() ==> (#[trigger] self.spaces@[i]).wf() && areas_backed(
                self.spaces@[i].areas(),
                self.fs.files().len() as int,
            )
    }

    /// The invariant of the kernel: the pool of frames, the address spaces
    /// and the tasks are in order, the current task, where there is one, is
    /// marked as running, and the time can be told in nanoseconds.
    pub open spec fn wf(&self) -> bool {
        &&& self.frames.wf()
        &&& self.spaces_wf()
        &&& self.scheduler.wf(self.spaces@.len() as int)
        &&& self.scheduler.current.0.is_some() ==> self.cur().state == TaskState::Running
        &&& self.clock.ticks * NANOS_PER_TICK <= u64::MAX
    }

    /// The kernel with the current task replaced by `t`.
    pub open spec fn with_current(&self, t: Task) -> Kernel {
        Kernel {
            scheduler: Scheduler { current: CurrentTask(Some(t)), ..self.scheduler },
            ..*self
        }
    }

    /// The invariant of the kernel holds again once the current task is
    /// replaced by a running task with the same numbers that is in order,
    /// where the address spaces, the pool of frames and the clock are as
    /// before and the stored files as many as before.
    pub proof fn lemma_current_replaced(&self, pre: Kernel, t: Task)
        requires
            pre.wf(),
            pre.scheduler.current.0.is_some(),
            t.wf(pre.spaces@.len() as int),
            t.state == TaskState::Running,
            t.pid == pre.cur().pid,
            t.tid == pre.cur().tid,
            self.scheduler == (Scheduler { current: CurrentTask(Some(t)), ..pre.scheduler }),
            self.spaces == pre.spaces,
            self.frames == pre.frames,
            self.clock == pre.clock,
            self.fs.files().len() == pre.fs.files().len(),
        ensures
            self.wf(),
    {
        assert(self.scheduler.queue() == pre.scheduler.queue());
    }

    /// Takes the current task out of its anchor, to be changed and put back.
    pub fn take_current(&mut self) -> (t: Task)
        requires
            old(self).scheduler.current.0.is_some(),
        ensures
            t == old(self).cur(),
            *final(self) == (Kernel {
                scheduler: Scheduler { current: CurrentTask(None), ..old(self).scheduler },
                ..*old(self)
            }),
    {
        self.scheduler.current.0.take().unwrap()
    }

    /// Puts the current task back in its anchor.
    pub fn put_current(&mut self, t: Task)
        ensures
            *final(self) == (Kernel {
                scheduler: Scheduler { current: CurrentTask(Some(t)), ..old(self).scheduler },
                ..*old(self)
            }),
    {
        self.scheduler.current.0 = Some(t);
    }

    /// A copy of the `len` bytes at `va` in the address space of the
    /// current task; `None` unless all of them lie in resident pages.
    pub fn user_read(&self, va: usize, len: usize) -> (r: Option<Vec<u8>>)
        requires
            self.wf(),
            self.scheduler.current.0.is_some(),
        ensures
            match self.cur_space().spec_bytes_at(va as int, len as int) {
                Some(bytes) => r.is_some() && r.unwrap()@ == bytes,
                None => r.is_none(),
            },
    {
        let id: usize = match &self.scheduler.current.0 {
            Some(t) => t.memory_set,
            None => 0,
        };
        assert(self.spaces@[id as int].wf());
        self.spaces[id].read_bytes(va, len)
    }

    /// Whether all of `[va, va + len)` lies in resident pages of the address
    /// space of the current task.
    pub fn user_resident(&self, va: usize, len: usize) -> (r: bool)
        requires
            self.wf(),
            self.scheduler.current.0.is_some(),
        ensures
            r == self.cur_space().spec_range_resident(va as int, len as int),
    {
        let id: usize = match &self.scheduler.current.0 {
            Some(t) => t.memory_set,
            None => 0,
        };
        assert(self.spaces@[id as int].wf());
        self.spaces[id].range_resident(va, len)
    }

    /// Stores `data` at `va` in the address space of the current task, where
    /// all of the target lies in resident pages; changes nothing and returns
    /// `false` where it does not.
    pub fn user_write(&mut self, va: usize, data: &[u8]) -> (r: bool)
        requires
            old(self).wf(),
            old(self).scheduler.current.0.is_some(),
        ensures
            final(self).wf(),
            r == old(self).cur_space().spec_range_resident(va as int, data@.len() as int),
            !r ==> *final(self) == *old(self),
            r ==> *final(self) == (Kernel { spaces: final(self).spaces, ..*old(self) })
                && spaces_stored(
                old(self).spaces@,
                final(self).spaces@,
                old(self).cur().memory_set as int,
                va as int,
                data@,
            ),
    {
        let id: usize = match &self.scheduler.current.0 {
            Some(t) => t.memory_set,
            None => 0,
        };
        assert(self.spaces@[id as int].wf());
        if !self.spaces[id].range_resident(va, data.len()) {
            return false;
        }
        let stored = self.spaces[id].write_bytes(va, data);
        proof {
            lemma_shape_backed(
                old(self).spaces@[id as int].areas(),
                self.spaces@[id as int].areas(),
                self.fs.files().len() as int,
            );
            assert forall|i: int| 0 <= i < self.spaces@.len() implies (#[trigger] self.spaces@[i]).wf()
                && areas_backed(self.spaces@[i].areas(), self.fs.files().len() as int) by {
                if i != id {
                    assert(self.spaces@[i] == old(self).spaces@[i]);
                }
            }
        }
        stored
    }
}

} // verus!
