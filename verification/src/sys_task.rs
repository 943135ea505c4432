//! The system calls on tasks and on time.

use crate::addr::{pages_for, spec_pages_for};
use crate::flags::CLONE_VM;
use crate::frame::spec_run;
use crate::kernel::{spaces_stored, Kernel};
use crate::memory_set::{areas_backed, frames_of, is_copy};
use crate::scheduler::{spec_next, spec_rest};
use crate::stack::TASK_STACK_SIZE;
use crate::task::{
    clone_flags, is_clone_of, spec_clone_flags, spec_clone_frames, spec_shares_vm, Task, TaskState,
};
use crate::time::{current_time, spec_timeval_of, timeval_of, Duration, TimeVal, NANOS_PER_TICK};
use vstd::bytes::{spec_u64_to_le_bytes, u64_to_le_bytes};
use vstd::prelude::*;

verus! {

/// The bytes of a pair of seconds and microseconds in memory: the seconds,
/// then the microseconds, each as eight bytes with the lowest first.
pub open spec fn timeval_bytes(tv: TimeVal) -> Seq<u8> {
    spec_u64_to_le_bytes(tv.secs as u64) + spec_u64_to_le_bytes(tv.usecs as u64)
}

impl Kernel {
    /// Whether `clone` goes ahead: the flags are understood, there is a
    /// task number left, and there are frames for the child.
    pub open spec fn clone_goes(&self, flags: usize) -> bool {
        &&& spec_clone_flags(flags).is_some()
        &&& self.scheduler.next_id < usize::MAX
        &&& self.frames.spec_free_frames() >= spec_clone_frames(self.cur_space(), flags)
    }

    /// What `clone` does: where it goes ahead, a child of the current task
    /// (see `task::is_clone_of`) with the next task number is appended to
    /// the ready queue, and the result is its number. Else the result is -1
    /// and nothing changes.
    pub open spec fn sys_clone_post(&self, post: Kernel, flags: usize, user_stack: usize, r: isize) -> bool {
        if self.clone_goes(flags) {
            &&& r == self.scheduler.next_id as isize
            &&& post == (Kernel {
                scheduler: post.scheduler,
                spaces: post.spaces,
                frames: post.frames,
                ..*self
            })
            &&& post.scheduler.next_id == self.scheduler.next_id + 1
            &&& post.scheduler.current == self.scheduler.current
            &&& post.scheduler.queue().len() == self.scheduler.queue().len() + 1
            &&& post.scheduler.queue().drop_last() == self.scheduler.queue()
            &&& is_clone_of(
                post.scheduler.queue().last(),
                self.cur(),
                flags,
                user_stack,
                self.scheduler.next_id,
                self.task_entry,
                self.spaces@,
                post.spaces@,
                self.frames.next_paddr() as int,
            )
            &&& post.frames.end_paddr() == self.frames.end_paddr()
            &&& post.frames.returned() == self.frames.returned()
            &&& post.frames.next_paddr() == self.frames.next_paddr() + 4096 * spec_clone_frames(
                self.cur_space(),
                flags,
            )
        } else {
            r == -1 && post == *self
        }
    }

    /// A clone gets a number of its own: where `clone` goes ahead, the child
    /// has the number that the counter held, as its pid and its tid; the
    /// number is positive and differs from that of the caller and from that
    /// of every task in the ready queue; and the result is that number,
    /// where it can be told as a signed integer.
    pub proof fn lemma_clone_number(&self, post: Kernel, flags: usize, user_stack: usize, r: isize)
        requires
            self.wf(),
            self.scheduler.current.0.is_some(),
            self.clone_goes(flags),
            self.sys_clone_post(post, flags, user_stack, r),
        ensures
            post.scheduler.queue().last().tid == self.scheduler.next_id,
            post.scheduler.queue().last().pid == self.scheduler.next_id,
            post.scheduler.queue().last().tid > 0,
            post.scheduler.queue().last().tid != self.cur().tid,
            forall|i: int|
                0 <= i < self.scheduler.queue().len() ==> (#[trigger] self.scheduler.queue()[i]).tid
                    != post.scheduler.queue().last().tid,
            post.cur().tid == self.cur().tid,
            self.scheduler.next_id <= isize::MAX ==> r == post.scheduler.queue().last().tid && r > 0,
    {
    }

    /// Clones the current task.
    pub fn sys_clone(&mut self, flags: usize, user_stack: usize) -> (r: isize)
        requires
            old(self).wf(),
            old(self).scheduler.current.0.is_some(),
        ensures
            final(self).wf(),
            old(self).sys_clone_post(*final(self), flags, user_stack, r),
    {
        let parsed = match clone_flags(flags) {
            Some(f) => f,
            None => {
                return -1;
            },
        };
        if self.scheduler.next_id == usize::MAX {
            return -1;
        }
        let id: usize = match &self.scheduler.current.0 {
            Some(t) => t.memory_set,
            None => 0,
        };
        assert(self.spaces@[id as int].wf());
        let stack_pages: usize = pages_for(TASK_STACK_SIZE);
        let free: usize = self.frames.free_frames();
        proof {
            crate::memory_set::lemma_total_resident(
                self.spaces@[id as int].areas(),
                0,
                self.spaces@[id as int].areas().len() as int,
            );
        }
        if parsed.contains(CLONE_VM) {
            if free < stack_pages {
                return -1;
            }
        } else {
            let resident: usize = self.spaces[id].resident_pages();
            if free < stack_pages || free - stack_pages < 1 || free - stack_pages - 1 < resident {
                return -1;
            }
        }
        let tid = self.scheduler.clone_current(
            flags,
            user_stack,
            self.task_entry,
            &mut self.spaces,
            &mut self.frames,
        );
        proof {
            let nfiles = self.fs.files().len() as int;
            assert forall|i: int| 0 <= i < self.spaces@.len() implies areas_backed(
                (#[trigger] self.spaces@[i]).areas(),
                nfiles,
            ) by {
                if i < old(self).spaces@.len() {
                    assert(self.spaces@[i] == old(self).spaces@[i]);
                } else {
                    let parent = old(self).spaces@[id as int];
                    let copy = self.spaces@[i];
                    assert(!spec_shares_vm(flags));
                    assert forall|k: int| 0 <= k < copy.areas().len() implies (#[trigger] copy.areas()[k]).backed_by(
                        nfiles,
                    ) by {
                        assert(is_copy(copy.areas()[k], parent.areas()[k]));
                        assert(parent.areas()[k].backed_by(nfiles));
                    }
                }
            }
        }
        #[verifier::truncate]
        (tid as isize)
    }

    /// What `sched_yield` does: the scheduling decision is made, and the
    /// result is 0.
    pub open spec fn sys_sched_yield_post(&self, post: Kernel, r: isize) -> bool {
        &&& r == 0
        &&& post == (Kernel { scheduler: post.scheduler, hart: post.hart, ..*self })
        &&& post.scheduler.next_id == self.scheduler.next_id
        &&& post.scheduler.current.0 == Some(
            spec_next(self.scheduler.queue(), self.cur(), self.hart.regs),
        )
        &&& post.scheduler.queue() == spec_rest(self.scheduler.queue(), self.cur(), self.hart.regs)
        &&& post.hart.regs == post.cur().ctx
        &&& post.hart.satp == self.spaces@[post.cur().memory_set as int].spec_page_table().root()
        &&& post.hart.terminated == self.hart.terminated
        &&& post.hart.gp == self.hart.gp
        &&& post.hart.tp == self.hart.tp
        &&& post.hart.sstatus == self.hart.sstatus
    }

    /// The current task gives up the hart.
    pub fn sys_sched_yield(&mut self) -> (r: isize)
        requires
            old(self).wf(),
            old(self).scheduler.current.0.is_some(),
        ensures
            final(self).wf(),
            old(self).sys_sched_yield_post(*final(self), r),
    {
        self.scheduler.yield_current(&mut self.hart, &self.spaces, &mut self.frames);
        0
    }

    /// Whether a task of the kernel refers to the address space `id`.
    pub open spec fn space_in_use(&self, id: int) -> bool {
        (self.scheduler.current.0.is_some() && self.cur().memory_set == id) || exists|i: int|
            0 <= i < self.scheduler.queue().len() && (#[trigger] self.scheduler.queue()[i]).memory_set
                == id
    }

    /// Whether a task of the kernel refers to the address space `id`.
    pub fn space_used(&self, id: usize) -> (r: bool)
        ensures
            r == self.space_in_use(id as int),
    {
        match &self.scheduler.current.0 {
            Some(t) => {
                if t.memory_set == id {
                    return true;
                }
            },
            None => {},
        }
        let mut i: usize = 0;
        while i < self.scheduler.ready.len()
            invariant
                i <= self.scheduler.queue().len(),
                forall|j: int| 0 <= j < i ==> (#[trigger] self.scheduler.queue()[j]).memory_set != id,
            decreases self.scheduler.queue().len() - i,
        {
            if self.scheduler.ready[i].memory_set == id {
                return true;
            }
            i += 1;
        }
        false
    }

    /// What `exit` does: where the current task is the init task, the
    /// machine is shut down. Else the task is given up, its kernel stack
    /// going back to the pool, and the head of the ready queue runs; and
    /// where no task refers to the address space of the task any more, the
    /// address space gives up its areas, which are written back to their
    /// files and whose frames go back to the pool.
    pub open spec fn sys_exit_post(&self, post: Kernel) -> bool {
        let id = self.cur().memory_set as int;
        &&& post == (Kernel {
            scheduler: post.scheduler,
            hart: post.hart,
            spaces: post.spaces,
            fs: post.fs,
            frames: post.frames,
            ..*self
        })
        &&& post.frames.next_paddr() == self.frames.next_paddr()
        &&& post.frames.end_paddr() == self.frames.end_paddr()
        &&& post.scheduler.next_id == self.scheduler.next_id
        &&& post.hart.gp == self.hart.gp
        &&& post.hart.tp == self.hart.tp
        &&& post.hart.sstatus == self.hart.sstatus
        &&& post.fs.open@ == self.fs.open@
        &&& post.fs.paths() == self.fs.paths()
        &&& post.spaces@.len() == self.spaces@.len()
        &&& forall|j: int| 0 <= j < self.spaces@.len() && j != id ==> #[trigger] post.spaces@[j] == self.spaces@[j]
        &&& self.cur().pid == 1 ==> {
            &&& post.frames == self.frames
            &&& post.hart.terminated
            &&& post.hart.regs == self.hart.regs
            &&& post.hart.satp == self.hart.satp
            &&& post.scheduler.current == self.scheduler.current
            &&& post.scheduler.queue() == self.scheduler.queue()
        }
        &&& self.cur().pid != 1 ==> {
            &&& post.hart.terminated == self.hart.terminated
            &&& post.scheduler.current.0 == Some(
                Task { state: TaskState::Running, ..self.scheduler.queue()[0] },
            )
            &&& post.scheduler.queue() == self.scheduler.queue().drop_first()
            &&& post.hart.regs == self.scheduler.queue()[0].ctx
            &&& post.hart.satp == self.spaces@[self.scheduler.queue()[0].memory_set as int].spec_page_table().root()
        }
        &&& self.cur().pid != 1 ==> post.frames.returned() == self.frames.returned() + spec_run(
            self.cur().kstack.spec_bottom() as int,
            spec_pages_for(self.cur().kstack.spec_size() as int),
        ) + (if post.space_in_use(id) {
            Seq::empty()
        } else {
            frames_of(self.spaces@[id].areas(), self.spaces@[id].areas().len() as int)
        })
        &&& if self.cur().pid != 1 && !post.space_in_use(id) {
            &&& post.spaces@[id].areas().len() == 0
            &&& post.spaces@[id].kernel_regions() == self.spaces@[id].kernel_regions()
            &&& post.spaces@[id].spec_entry() == self.spaces@[id].spec_entry()
            &&& post.spaces@[id].spec_page_table().root() == self.spaces@[id].spec_page_table().root()
            &&& post.fs.files() == crate::memory_set::files_after_release(
                self.spaces@[id].areas(),
                self.spaces@[id].areas().len() as int,
                self.fs.files(),
            )
        } else {
            post.spaces@[id] == self.spaces@[id] && post.fs.files() == self.fs.files()
        }
    }

    /// The current task exits. The status has no effect.
    pub fn sys_exit(&mut self, status: i32)
        requires
            old(self).wf(),
            old(self).scheduler.current.0.is_some(),
            old(self).cur().pid == 1 || old(self).scheduler.queue().len() > 0,
        ensures
            final(self).wf(),
            old(self).sys_exit_post(*final(self)),
    {
        let (id, is_init): (usize, bool) = match &self.scheduler.current.0 {
            Some(t) => (t.memory_set, t.is_init()),
            None => (0, true),
        };
        self.scheduler.exit_current(&mut self.hart, &self.spaces, &mut self.frames);
        if !is_init && !self.space_used(id) {
            assert(self.spaces@[id as int].wf());
            proof {
                crate::memory_set::lemma_files_after_release_len(
                    self.spaces@[id as int].areas(),
                    self.spaces@[id as int].areas().len() as int,
                    self.fs.files(),
                );
            }
            self.spaces[id].release(&mut self.frames, &mut self.fs);
            proof {
                assert forall|i: int| 0 <= i < self.spaces@.len() implies (#[trigger] self.spaces@[i]).wf()
                    && areas_backed(self.spaces@[i].areas(), self.fs.files().len() as int) by {
                    if i != id {
                        assert(self.spaces@[i] == old(self).spaces@[i]);
                    }
                }
            }
        }
    }

    /// The pair of seconds and microseconds that tells the time.
    pub open spec fn spec_time_of_day(&self) -> TimeVal {
        spec_timeval_of(
            Duration {
                secs: (self.clock.ticks * NANOS_PER_TICK / 1_000_000_000) as u64,
                nanos: (self.clock.ticks * NANOS_PER_TICK % 1_000_000_000) as u32,
            },
        )
    }

    /// What `gettimeofday` does: the time is stored at `tv` as a pair of
    /// seconds and microseconds, and the result is 0. Where the target does
    /// not lie in resident pages, the result is -1 and nothing changes.
    pub open spec fn sys_get_time_of_day_post(&self, post: Kernel, tv: usize, r: isize) -> bool {
        if self.cur_space().spec_range_resident(tv as int, 16) {
            &&& r == 0
            &&& post == (Kernel { spaces: post.spaces, ..*self })
            &&& spaces_stored(
                self.spaces@,
                post.spaces@,
                self.cur().memory_set as int,
                tv as int,
                timeval_bytes(self.spec_time_of_day()),
            )
        } else {
            r == -1 && post == *self
        }
    }

    /// Stores the time at `tv`. The time zone has no effect.
    pub fn sys_get_time_of_day(&mut self, tv: usize, tz: usize) -> (r: isize)
        requires
            old(self).wf(),
            old(self).scheduler.current.0.is_some(),
        ensures
            final(self).wf(),
            old(self).sys_get_time_of_day_post(*final(self), tv, r),
    {
        let now: TimeVal = timeval_of(current_time(&self.clock));
        let mut bytes = u64_to_le_bytes(#[verifier::truncate] (now.secs as u64));
        let usecs = u64_to_le_bytes(#[verifier::truncate] (now.usecs as u64));
        bytes.extend_from_slice(usecs.as_slice());
        proof {
            vstd::bytes::lemma_auto_spec_u64_to_from_le_bytes();
        }
        if self.user_write(tv, bytes.as_slice()) {
            0
        } else {
            -1
        }
    }
}

} // verus!
