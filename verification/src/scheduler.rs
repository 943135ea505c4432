//! The FIFO scheduler: the queue of ready tasks and the task that runs.

use crate::context::TaskContext;
use crate::addr::spec_pages_for;
use crate::frame::{spec_run, FrameAllocator};
use crate::memory_set::MemorySet;
use crate::task::{spec_clone_flags, spec_clone_frames, Task, TaskState};
use std::collections::VecDeque;
use vstd::prelude::*;

verus! {

/// What the scheduler changes of the hart: the callee-saved registers of the
/// kernel, the root of the page table in use, and whether the machine has
/// been shut down.
pub struct Hart {
    pub regs: TaskContext,
    pub satp: usize,
    pub terminated: bool,
    /// The registers that the trap frame of the init task takes over.
    pub gp: usize,
    pub tp: usize,
    pub sstatus: usize,
}

/// The anchor of the hart for the task that runs on it. It is empty only
/// before the scheduler is started.
pub struct CurrentTask(pub Option<Task>);

impl CurrentTask {
    /// The task that runs, if there is one.
    pub fn try_get(&self) -> (r: Option<&Task>)
        ensures
            r.is_some() == self.0.is_some(),
            r.is_some() ==> *r.unwrap() == self.0.unwrap(),
    {
        self.0.as_ref()
    }

    /// Installs the first task.
    pub fn init(&mut self, task: Task)
        ensures
            final(self).0 == Some(task),
    {
        self.0 = Some(task);
    }

    /// Replaces the task that runs.
    pub fn set(&mut self, task: Task)
        ensures
            final(self).0 == Some(task),
    {
        self.0 = Some(task);
    }
}

/// The scheduler: the ready queue, the current task and the counter from
/// which task numbers are taken.
pub struct Scheduler {
    pub ready: VecDeque<Task>,
    pub current: CurrentTask,
    pub next_id: usize,
}

/// The ready queue once the task `prev` has given up the hart: where it was
/// still running it becomes ready, keeps the registers of the hart as its
/// context and goes to the back of the queue; else the queue is as it was.
pub open spec fn spec_requeue(queue: Seq<Task>, prev: Task, regs: TaskContext) -> Seq<Task> {
    if prev.state == TaskState::Running {
        queue.push(Task { state: TaskState::Ready, ctx: regs, ..prev })
    } else {
        queue
    }
}

/// The frames that go back to the pool once the task `prev` has given up the
/// hart: none where it was still running, else those of its kernel stack.
pub open spec fn spec_given_back(prev: Task) -> Seq<usize> {
    if prev.state == TaskState::Running {
        Seq::empty()
    } else {
        spec_run(prev.kstack.spec_bottom() as int, spec_pages_for(prev.kstack.spec_size() as int))
    }
}

/// The task that runs after a scheduling decision: the head of the queue,
/// marked as running.
pub open spec fn spec_next(queue: Seq<Task>, prev: Task, regs: TaskContext) -> Task {
    Task { state: TaskState::Running, ..spec_requeue(queue, prev, regs)[0] }
}

/// The ready queue after a scheduling decision.
pub open spec fn spec_rest(queue: Seq<Task>, prev: Task, regs: TaskContext) -> Seq<Task> {
    spec_requeue(queue, prev, regs).drop_first()
}

/// Tasks are run in the order in which they became ready. Where `a`, `b`
/// and `c` are at the head of the ready queue in that order, the next three
/// scheduling decisions pick `a`, `b` and `c`, whatever task runs at first
/// and whatever the registers of the hart are at each decision.
pub proof fn lemma_fifo(
    a: Task,
    b: Task,
    c: Task,
    later: Seq<Task>,
    first: Task,
    r1: TaskContext,
    r2: TaskContext,
    r3: TaskContext,
)
    ensures
        ({
            let q0 = seq![a, b, c] + later;
            let n1 = spec_next(q0, first, r1);
            let q1 = spec_rest(q0, first, r1);
            let n2 = spec_next(q1, n1, r2);
            let q2 = spec_rest(q1, n1, r2);
            let n3 = spec_next(q2, n2, r3);
            &&& n1 == (Task { state: TaskState::Running, ..a })
            &&& n2 == (Task { state: TaskState::Running, ..b })
            &&& n3 == (Task { state: TaskState::Running, ..c })
        }),
{
    let q0 = seq![a, b, c] + later;
    let n1 = spec_next(q0, first, r1);
    let q1 = spec_rest(q0, first, r1);
    let n2 = spec_next(q1, n1, r2);
    let q2 = spec_rest(q1, n1, r2);
    assert(q0[0] == a && q0[1] == b && q0[2] == c);
    assert(spec_requeue(q0, first, r1)[0] == a);
    assert(q1[0] == b && q1[1] == c);
    assert(spec_requeue(q1, n1, r2)[0] == b);
    assert(q2[0] == c);
    assert(spec_requeue(q2, n2, r3)[0] == c);
}

/// A scheduler without tasks. Task numbers start at 1.
pub fn init() -> (s: Scheduler)
    ensures
        s.ready@.len() == 0,
        s.current.0.is_none(),
        s.next_id == 1,
        s.ids_ok(),
{
    Scheduler { ready: VecDeque::new(), current: CurrentTask(None), next_id: 1 }
}

impl Scheduler {
    /// The ready queue, head first.
    pub open spec fn queue(&self) -> Seq<Task> {
        self.ready@
    }

    /// The numbers of the tasks are in order: the counter is positive, every
    /// task has one number as its pid and its tid, that number was taken
    /// from the counter, and no two tasks have the same number.
    pub open spec fn ids_ok(&self) -> bool {
        &&& self.next_id >= 1
        &&& forall|i: int|
            0 <= i < self.queue().len() ==> (#[trigger] self.queue()[i]).pid == self.queue()[i].tid
                && 0 < self.queue()[i].tid < self.next_id
        &&& forall|i: int, j: int|
            0 <= i < j < self.queue().len() ==> (#[trigger] self.queue()[i]).tid
                != (#[trigger] self.queue()[j]).tid
        &&& self.current.0.is_some() ==> {
            &&& self.current.0.unwrap().pid == self.current.0.unwrap().tid
            &&& 0 < self.current.0.unwrap().tid < self.next_id
            &&& forall|i: int|
                0 <= i < self.queue().len() ==> (#[trigger] self.queue()[i]).tid
                    != self.current.0.unwrap().tid
        }
    }

    /// Whether `task` can join the tasks of the scheduler: it has one number
    /// as its pid and its tid, the number was taken from the counter, and no
    /// task of the scheduler has it.
    pub open spec fn admits(&self, task: Task) -> bool {
        &&& task.pid == task.tid
        &&& 0 < task.tid < self.next_id
        &&& forall|i: int| 0 <= i < self.queue().len() ==> (#[trigger] self.queue()[i]).tid != task.tid
        &&& self.current.0.is_some() ==> self.current.0.unwrap().tid != task.tid
    }

    /// Whether `task` can join the tasks of the scheduler: see `admits`.
    pub fn can_admit(&self, task: &Task) -> (r: bool)
        ensures
            r == self.admits(*task),
    {
        if task.pid != task.tid || task.tid == 0 || task.tid >= self.next_id {
            return false;
        }
        match &self.current.0 {
            Some(cur) => {
                if cur.tid == task.tid {
                    return false;
                }
            },
            None => {},
        }
        let mut i: usize = 0;
        while i < self.ready.len()
            invariant
                i <= self.queue().len(),
                forall|j: int| 0 <= j < i ==> (#[trigger] self.queue()[j]).tid != task.tid,
            decreases self.queue().len() - i,
        {
            if self.ready[i].tid == task.tid {
                return false;
            }
            i += 1;
        }
        true
    }

    /// Every task of the scheduler refers to one of the first `nspaces`
    /// address spaces and has a kernel stack that is in order, and the
    /// numbers of the tasks are in order.
    pub open spec fn wf(&self, nspaces: int) -> bool {
        &&& forall|i: int| 0 <= i < self.queue().len() ==> (#[trigger] self.queue()[i]).wf(nspaces)
        &&& self.current.0.is_some() ==> self.current.0.unwrap().wf(nspaces)
        &&& self.ids_ok()
    }

    /// Takes the next task number from the counter. No task has it.
    pub fn alloc_id(&mut self) -> (id: usize)
        requires
            old(self).next_id < usize::MAX,
        ensures
            id == old(self).next_id,
            final(self).next_id == old(self).next_id + 1,
            final(self).ready == old(self).ready,
            final(self).current == old(self).current,
            old(self).ids_ok() ==> final(self).ids_ok(),
    {
        let id: usize = self.next_id;
        self.next_id = id + 1;
        id
    }

    /// Appends `task` to the ready queue. The task has a number of its own,
    /// taken from the counter.
    pub fn add_task(&mut self, task: Task)
        requires
            old(self).admits(task),
        ensures
            final(self).queue() == old(self).queue().push(task),
            final(self).current == old(self).current,
            final(self).next_id == old(self).next_id,
            old(self).ids_ok() ==> final(self).ids_ok(),
    {
        self.ready.push_back(task);
    }

    /// Starts the scheduler with the init task: the task becomes the
    /// current task and is marked as running. The caller then enters user
    /// mode with the trap frame of the task.
    pub fn start(&mut self, task: Task)
        requires
            old(self).current.0.is_none(),
            task.pid == 1,
            task.tid == 1,
            old(self).admits(task),
        ensures
            final(self).current.0 == Some(Task { state: TaskState::Running, ..task }),
            final(self).queue() == old(self).queue(),
            final(self).next_id == old(self).next_id,
            old(self).ids_ok() ==> final(self).ids_ok(),
    {
        let mut task = task;
        task.enter_as_init();
        self.current.init(task);
    }

    /// Makes the scheduling decision: the current task, where it is still
    /// running, goes to the back of the ready queue, and else is given up,
    /// its kernel stack going back to the pool; the head of the queue
    /// becomes the current task; the hart takes over its page table and its
    /// context.
    pub fn reschedule(&mut self, hart: &mut Hart, spaces: &Vec<MemorySet>, frames: &mut FrameAllocator)
        requires
            old(frames).wf(),
            old(self).current.0.is_some(),
            old(self).wf(spaces@.len() as int),
            spec_requeue(old(self).queue(), old(self).current.0.unwrap(), old(hart).regs).len() > 0,
        ensures
            final(self).wf(spaces@.len() as int),
            final(self).next_id == old(self).next_id,
            final(self).current.0 == Some(
                spec_next(old(self).queue(), old(self).current.0.unwrap(), old(hart).regs),
            ),
            final(self).queue() == spec_rest(
                old(self).queue(),
                old(self).current.0.unwrap(),
                old(hart).regs,
            ),
            final(hart).regs == final(self).current.0.unwrap().ctx,
            final(hart).satp == spaces@[final(self).current.0.unwrap().memory_set as int].spec_page_table().root(),
            final(hart).terminated == old(hart).terminated,
            final(hart).gp == old(hart).gp,
            final(hart).tp == old(hart).tp,
            final(hart).sstatus == old(hart).sstatus,
            final(frames).wf(),
            final(frames).next_paddr() == old(frames).next_paddr(),
            final(frames).end_paddr() == old(frames).end_paddr(),
            final(frames).returned() == old(frames).returned() + spec_given_back(
                old(self).current.0.unwrap(),
            ),
            old(self).current.0.unwrap().state == TaskState::Running ==> *final(frames) == *old(frames),
    {
        let mut prev = self.current.0.take().unwrap();
        if prev.is_running() {
            prev.set_state(TaskState::Ready);
            let ctx = prev.ctx_mut_ptr();
            *ctx = hart.regs;
            self.ready.push_back(prev);
            assert(frames.returned() =~= old(frames).returned() + spec_given_back(
                old(self).current.0.unwrap(),
            ));
        } else {
            prev.kstack.release(frames);
        }
        let next = self.ready.pop_front().unwrap();
        self.switch_to(next, hart, spaces);
    }

    /// Hands the hart to `next`: marks it as running, installs it as the
    /// current task, and loads its page table and its context.
    pub fn switch_to(&mut self, next: Task, hart: &mut Hart, spaces: &Vec<MemorySet>)
        requires
            next.memory_set < spaces@.len(),
        ensures
            final(self).ready == old(self).ready,
            final(self).next_id == old(self).next_id,
            final(self).current.0 == Some(Task { state: TaskState::Running, ..next }),
            final(hart).regs == next.ctx,
            final(hart).satp == spaces@[next.memory_set as int].spec_page_table().root(),
            final(hart).terminated == old(hart).terminated,
            final(hart).gp == old(hart).gp,
            final(hart).tp == old(hart).tp,
            final(hart).sstatus == old(hart).sstatus,
    {
        let mut next = next;
        next.set_state(TaskState::Running);
        hart.satp = next.page_table_ppn(spaces);
        hart.regs = next.ctx;
        self.current.set(next);
    }

    /// The current task gives up the hart.
    pub fn yield_current(&mut self, hart: &mut Hart, spaces: &Vec<MemorySet>, frames: &mut FrameAllocator)
        requires
            old(frames).wf(),
            old(self).current.0.is_some(),
            old(self).wf(spaces@.len() as int),
            spec_requeue(old(self).queue(), old(self).current.0.unwrap(), old(hart).regs).len() > 0,
        ensures
            final(self).wf(spaces@.len() as int),
            final(self).next_id == old(self).next_id,
            final(self).current.0 == Some(
                spec_next(old(self).queue(), old(self).current.0.unwrap(), old(hart).regs),
            ),
            final(self).queue() == spec_rest(
                old(self).queue(),
                old(self).current.0.unwrap(),
                old(hart).regs,
            ),
            final(hart).regs == final(self).current.0.unwrap().ctx,
            final(hart).satp == spaces@[final(self).current.0.unwrap().memory_set as int].spec_page_table().root(),
            final(hart).terminated == old(hart).terminated,
            final(hart).gp == old(hart).gp,
            final(hart).tp == old(hart).tp,
            final(hart).sstatus == old(hart).sstatus,
            final(frames).wf(),
            final(frames).next_paddr() == old(frames).next_paddr(),
            final(frames).end_paddr() == old(frames).end_paddr(),
            final(frames).returned() == old(frames).returned() + spec_given_back(
                old(self).current.0.unwrap(),
            ),
            old(self).current.0.unwrap().state == TaskState::Running ==> *final(frames) == *old(frames),
    {
        self.reschedule(hart, spaces, frames);
    }

    /// The current task exits. Where it is the init task, the machine is
    /// shut down. Else the task is marked as exited and given up, its kernel
    /// stack going back to the pool, and the head of the ready queue runs.
    pub fn exit_current(&mut self, hart: &mut Hart, spaces: &Vec<MemorySet>, frames: &mut FrameAllocator)
        requires
            old(frames).wf(),
            old(self).current.0.is_some(),
            old(self).wf(spaces@.len() as int),
            old(self).current.0.unwrap().pid == 1 || old(self).queue().len() > 0,
        ensures
            final(self).wf(spaces@.len() as int),
            final(self).next_id == old(self).next_id,
            final(hart).gp == old(hart).gp,
            final(hart).tp == old(hart).tp,
            final(hart).sstatus == old(hart).sstatus,
            final(frames).wf(),
            final(frames).next_paddr() == old(frames).next_paddr(),
            final(frames).end_paddr() == old(frames).end_paddr(),
            old(self).current.0.unwrap().pid == 1 ==> {
                &&& *final(frames) == *old(frames)
                &&& final(hart).terminated
                &&& final(hart).regs == old(hart).regs
                &&& final(hart).satp == old(hart).satp
                &&& final(self).current == old(self).current
                &&& final(self).queue() == old(self).queue()
            },
            old(self).current.0.unwrap().pid != 1 ==> {
                &&& final(frames).returned() == old(frames).returned() + spec_run(
                    old(self).current.0.unwrap().kstack.spec_bottom() as int,
                    spec_pages_for(old(self).current.0.unwrap().kstack.spec_size() as int),
                )
                &&& final(hart).terminated == old(hart).terminated
                &&& final(self).current.0 == Some(
                    Task { state: TaskState::Running, ..old(self).queue()[0] },
                )
                &&& final(self).queue() == old(self).queue().drop_first()
                &&& final(hart).regs == old(self).queue()[0].ctx
                &&& final(hart).satp == spaces@[old(self).queue()[0].memory_set as int].spec_page_table().root()
            },
    {
        let is_init = match &self.current.0 {
            Some(t) => t.is_init(),
            None => false,
        };
        if is_init {
            hart.terminated = true;
        } else {
            match &mut self.current.0 {
                Some(t) => {
                    t.set_state(TaskState::Exited);
                },
                None => {},
            }
            self.reschedule(hart, spaces, frames);
        }
    }

    /// Clones the current task and appends the child to the ready queue.
    /// Returns the number of the child, which no other task has.
    pub fn clone_current(
        &mut self,
        flags: usize,
        user_stack: usize,
        task_entry: usize,
        spaces: &mut Vec<MemorySet>,
        frames: &mut FrameAllocator,
    ) -> (tid: usize)
        requires
            old(self).current.0.is_some(),
            old(self).wf(old(spaces)@.len() as int),
            old(self).next_id < usize::MAX,
            forall|i: int| 0 <= i < old(spaces)@.len() ==> (#[trigger] old(spaces)@[i]).wf(),
            old(frames).wf(),
            spec_clone_flags(flags).is_some(),
            old(frames).spec_free_frames() >= spec_clone_frames(
                old(spaces)@[old(self).current.0.unwrap().memory_set as int],
                flags,
            ),
        ensures
            tid == old(self).next_id,
            tid > 0,
            tid != old(self).current.0.unwrap().tid,
            forall|i: int| 0 <= i < old(self).queue().len() ==> (#[trigger] old(self).queue()[i]).tid != tid,
            final(self).next_id == old(self).next_id + 1,
            final(self).current == old(self).current,
            final(self).queue().len() == old(self).queue().len() + 1,
            final(self).queue().drop_last() == old(self).queue(),
            final(self).wf(final(spaces)@.len() as int),
            crate::task::is_clone_of(
                final(self).queue().last(),
                old(self).current.0.unwrap(),
                flags,
                user_stack,
                tid,
                task_entry,
                old(spaces)@,
                final(spaces)@,
                old(frames).next_paddr() as int,
            ),
            forall|i: int| 0 <= i < final(spaces)@.len() ==> (#[trigger] final(spaces)@[i]).wf(),
            final(frames).wf(),
            final(frames).end_paddr() == old(frames).end_paddr(),
            final(frames).returned() == old(frames).returned(),
            final(frames).next_paddr() == old(frames).next_paddr() + 4096 * spec_clone_frames(
                old(spaces)@[old(self).current.0.unwrap().memory_set as int],
                flags,
            ),
    {
        let new_tid = self.alloc_id();
        let new_task = match &self.current.0 {
            Some(curr) => curr.clone(flags, user_stack, new_tid, task_entry, spaces, frames),
            None => {
                assert(false);
                return 0;
            },
        };
        proof {
            assert forall|i: int| 0 <= i < spaces@.len() implies (#[trigger] spaces@[i]).wf() by {
                if i < old(spaces)@.len() {
                    assert(spaces@[i] == old(spaces)@[i]);
                }
            }
        }
        self.add_task(new_task);
        proof {
            assert(self.queue().drop_last() =~= old(self).queue());
            assert forall|i: int| 0 <= i < self.queue().len() implies (#[trigger] self.queue()[i]).wf(
                spaces@.len() as int,
            ) by {
                if i < old(self).queue().len() {
                    assert(self.queue()[i] == old(self).queue()[i]);
                    assert(old(self).queue()[i].wf(old(spaces)@.len() as int));
                }
            }
        }
        new_tid
    }
}

/// Starts the scheduler with the init task.
pub fn start(scheduler: &mut Scheduler, task: Task)
    requires
        old(scheduler).current.0.is_none(),
        task.pid == 1,
        task.tid == 1,
        old(scheduler).admits(task),
    ensures
        final(scheduler).current.0 == Some(Task { state: TaskState::Running, ..task }),
        final(scheduler).queue() == old(scheduler).queue(),
        final(scheduler).next_id == old(scheduler).next_id,
        old(scheduler).ids_ok() ==> final(scheduler).ids_ok(),
{
    scheduler.start(task);
}

} // verus!
