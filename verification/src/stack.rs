//! The kernel stack of a task.

use crate::addr::{pages_for, spec_pages_for};
use crate::context::{TrapFrame, TRAP_FRAME_SIZE};
use crate::frame::{spec_run, FrameAllocator};
use vstd::prelude::*;

verus! {

/// Size of the kernel stack and of the user stack of a task.
pub const TASK_STACK_SIZE: usize = 0x40000;

/// A kernel stack: the memory from `bottom` up to `top`. The trap frame of
/// the task lies at its top.
#[derive(Clone, Debug)]
pub struct TaskStack {
    base: usize,
    size: usize,
    frame: TrapFrame,
}

impl TaskStack {
    /// The lowest address of the stack.
    pub closed spec fn spec_bottom(&self) -> usize {
        self.base
    }

    /// Size of the stack in bytes.
    pub closed spec fn spec_size(&self) -> usize {
        self.size
    }

    /// The trap frame that lies at the top of the stack.
    pub closed spec fn spec_frame(&self) -> TrapFrame {
        self.frame
    }

    /// The stack with `tf` as its trap frame.
    pub closed spec fn with_frame(self, tf: TrapFrame) -> TaskStack {
        TaskStack { frame: tf, ..self }
    }

    /// Replacing the trap frame changes nothing else of the stack.
    pub proof fn lemma_with_frame(self, tf: TrapFrame)
        ensures
            self.with_frame(tf).spec_frame() == tf,
            self.with_frame(tf).spec_bottom() == self.spec_bottom(),
            self.with_frame(tf).spec_size() == self.spec_size(),
            self.with_frame(self.spec_frame()) == self,
    {
    }

    /// The address just above the stack.
    pub open spec fn spec_top(&self) -> int {
        self.spec_bottom() + self.spec_size()
    }

    /// The stack starts at a page, lies with its last page in the address
    /// space and has room for the trap frame.
    pub open spec fn wf(&self) -> bool {
        &&& self.spec_top() <= usize::MAX
        &&& self.spec_size() >= TRAP_FRAME_SIZE
        &&& self.spec_bottom() as int % 4096 == 0
        &&& self.spec_bottom() + 4096 * spec_pages_for(self.spec_size() as int) <= usize::MAX
    }

    /// Takes a stack of `size` bytes from the pool of frames. Its trap frame
    /// is all zero.
    pub fn alloc_stack(size: usize, frames: &mut FrameAllocator) -> (s: Self)
        requires
            old(frames).wf(),
            size >= TRAP_FRAME_SIZE,
            old(frames).spec_free_frames() >= spec_pages_for(size as int),
        ensures
            s.wf(),
            s.spec_bottom() == old(frames).next_paddr(),
            s.spec_size() == size,
            s.spec_frame() == TrapFrame::spec_zero(),
            final(frames).wf(),
            final(frames).end_paddr() == old(frames).end_paddr(),
            final(frames).returned() == old(frames).returned(),
            final(frames).next_paddr() == old(frames).next_paddr() + 4096 * spec_pages_for(
                size as int,
            ),
    {
        let pages = frames.alloc_contiguous(pages_for(size)).unwrap();
        let base: usize = match &pages[0] {
            Some(p) => p.start_paddr(),
            None => 0,
        };
        assert(pages@[pages@.len() - 1].is_some());
        TaskStack { base, size, frame: TrapFrame::default() }
    }

    /// Gives the frames of the stack back to the pool, in ascending order of
    /// address.
    pub fn release(self, frames: &mut FrameAllocator)
        requires
            self.wf(),
            old(frames).wf(),
        ensures
            final(frames).wf(),
            final(frames).next_paddr() == old(frames).next_paddr(),
            final(frames).end_paddr() == old(frames).end_paddr(),
            final(frames).returned() == old(frames).returned() + spec_run(
                self.spec_bottom() as int,
                spec_pages_for(self.spec_size() as int),
            ),
    {
        frames.dealloc_run(self.base, pages_for(self.size));
    }

    /// The address just above the stack.
    pub fn top(&self) -> (va: usize)
        requires
            self.wf(),
        ensures
            va == self.spec_top(),
    {
        self.base + self.size
    }

    /// The lowest address of the stack.
    pub fn bottom(&self) -> (va: usize)
        ensures
            va == self.spec_bottom(),
    {
        self.base
    }

    /// The address of the trap frame. It is a multiple of 8 where the size
    /// of the stack is one.
    pub fn trap_frame_ptr(&self) -> (va: usize)
        requires
            self.wf(),
        ensures
            va == self.spec_top() - TRAP_FRAME_SIZE,
            self.spec_size() as int % 8 == 0 ==> va as int % 8 == 0,
    {
        self.top() - TRAP_FRAME_SIZE
    }

    /// The address of the trap frame. It is a multiple of 8 where the size
    /// of the stack is one.
    pub fn trap_frame_ptr_mut(&self) -> (va: usize)
        requires
            self.wf(),
        ensures
            va == self.spec_top() - TRAP_FRAME_SIZE,
            self.spec_size() as int % 8 == 0 ==> va as int % 8 == 0,
    {
        self.top() - TRAP_FRAME_SIZE
    }

    /// The trap frame.
    pub fn trap_frame(&self) -> (tf: &TrapFrame)
        ensures
            *tf == self.spec_frame(),
    {
        &self.frame
    }

    /// Replaces the trap frame.
    pub fn set_trap_frame(&mut self, tf: TrapFrame)
        ensures
            *final(self) == old(self).with_frame(tf),
            final(self).spec_frame() == tf,
            final(self).spec_bottom() == old(self).spec_bottom(),
            final(self).spec_size() == old(self).spec_size(),
    {
        self.frame = tf;
    }

    /// The trap frame, to be changed in place.
    pub fn trap_frame_mut(&mut self) -> (tf: &mut TrapFrame)
        ensures
            *tf == old(self).spec_frame(),
            final(self).spec_frame() == *final(tf),
            final(self).spec_bottom() == old(self).spec_bottom(),
            final(self).spec_size() == old(self).spec_size(),
    {
        &mut self.frame
    }
}

} // verus!
