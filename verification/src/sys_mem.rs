//! The system calls on the address space, and the entry for page faults.

use crate::addr::spec_align_up_4k;
use crate::backend::MemBackend;
use crate::fd::FileRef;
use crate::flags::{MMapFlags, MMapProtFlag, MappingFlags, MAP_ANONYMOUS, MAP_FIXED};
use crate::kernel::Kernel;
use crate::memory_set::{areas_backed, mmap_post, mprotect_post, munmap_post, page_fault_post};
use vstd::prelude::*;

verus! {

impl Kernel {
    /// The address spaces `post` differ from `self.spaces` in that of the
    /// current task at most, which keeps its kernel regions, its entry
    /// point and the root of its table.
    pub open spec fn only_cur_space_changed(&self, post: Kernel) -> bool {
        let id = self.cur().memory_set as int;
        &&& post.spaces@.len() == self.spaces@.len()
        &&& forall|j: int| 0 <= j < self.spaces@.len() && j != id ==> #[trigger] post.spaces@[j] == self.spaces@[j]
        &&& post.spaces@[id].wf()
        &&& post.spaces@[id].kernel_regions() == self.spaces@[id].kernel_regions()
        &&& post.spaces@[id].spec_entry() == self.spaces@[id].spec_entry()
        &&& post.spaces@[id].spec_page_table().root() == self.spaces@[id].spec_page_table().root()
    }

    /// The backend of a mapping: none for an anonymous mapping; else the
    /// stored file of the open file that descriptor `fd` refers to, with the
    /// cursor at `offset`. There is no backend to be had where the
    /// descriptor does not refer to an open file.
    pub open spec fn spec_mmap_backend(&self, flags: MMapFlags, fd: usize, offset: usize) -> Option<
        Option<MemBackend>,
    > {
        if flags.spec_contains(MAP_ANONYMOUS) {
            Some(None)
        } else {
            match self.cur().fd_table.spec_query(fd as int) {
                Some(FileRef::Open(h)) => match self.fs.spec_handle(h as int) {
                    Some(f) => Some(Some(MemBackend { file: f.node, cursor: offset as u64 })),
                    None => None,
                },
                _ => None,
            }
        }
    }

    /// Whether `mmap` goes ahead: the protection and the flags are
    /// understood, the mapping is not a fixed one at address 0, there is a
    /// backend to be had, and the address space can place the mapping.
    pub open spec fn mmap_goes(
        &self,
        start: usize,
        len: usize,
        prot: u32,
        flags: u32,
        fd: usize,
        offset: usize,
    ) -> bool {
        let p = MMapProtFlag::spec_from_bits(prot);
        let f = MMapFlags::spec_from_bits(flags);
        &&& p.is_some()
        &&& f.is_some()
        &&& !(f.unwrap().spec_contains(MAP_FIXED) && start == 0)
        &&& self.spec_mmap_backend(f.unwrap(), fd, offset).is_some()
        &&& len + 4096 <= usize::MAX
        &&& self.cur_space().mmap_admissible(
            start as int,
            len as int,
            f.unwrap().spec_contains(MAP_FIXED),
            self.spec_mmap_backend(f.unwrap(), fd, offset).unwrap(),
            self.fs.files().len() as int,
            self.frames.spec_free_frames() as int,
        )
    }

    /// What `mmap` does: where it goes ahead, the address space of the
    /// current task gets the mapping as `memory_set::mmap_post` says, with
    /// the permissions that the protection stands for, and the result is the
    /// address of the mapping. Else the result is -1 and nothing changes.
    pub open spec fn sys_mmap_post(
        &self,
        post: Kernel,
        start: usize,
        len: usize,
        prot: u32,
        flags: u32,
        fd: usize,
        offset: usize,
        r: isize,
    ) -> bool {
        if self.mmap_goes(start, len, prot, flags, fd, offset) {
            let f = MMapFlags::spec_from_bits(flags).unwrap();
            &&& post == (Kernel { spaces: post.spaces, frames: post.frames, fs: post.fs, ..*self })
            &&& self.only_cur_space_changed(post)
            &&& post.fs.open@ == self.fs.open@
            &&& post.fs.paths() == self.fs.paths()
            &&& post.frames.end_paddr() == self.frames.end_paddr()
            &&& mmap_post(
                self.cur_space(),
                post.spaces@[self.cur().memory_set as int],
                start,
                len,
                MMapProtFlag::spec_from_bits(prot).unwrap().spec_mapping_flags(),
                f.spec_contains(MAP_FIXED),
                self.spec_mmap_backend(f, fd, offset).unwrap(),
                self.fs.files(),
                post.fs.files(),
                self.frames,
                post.frames,
                r,
            )
        } else {
            r == -1 && post == *self
        }
    }

    /// Maps memory into the address space of the current task. The caller
    /// flushes the TLB afterwards.
    pub fn sys_mmap(
        &mut self,
        start: usize,
        len: usize,
        prot: u32,
        flags: u32,
        fd: usize,
        offset: usize,
    ) -> (r: isize)
        requires
            old(self).wf(),
            old(self).scheduler.current.0.is_some(),
        ensures
            final(self).wf(),
            old(self).sys_mmap_post(*final(self), start, len, prot, flags, fd, offset, r),
    {
        let prot = match MMapProtFlag::from_bits(prot) {
            Some(p) => p.mapping_flags(),
            None => {
                return -1;
            },
        };
        let flags = match MMapFlags::from_bits(flags) {
            Some(f) => f,
            None => {
                return -1;
            },
        };
        let fixed = flags.contains(MAP_FIXED);
        if fixed && start == 0 {
            return -1;
        }
        let backend: Option<MemBackend> = if flags.contains(MAP_ANONYMOUS) {
            None
        } else {
            match self.cur_fd(fd) {
                Some(FileRef::Open(h)) => match self.fs.handle(h) {
                    Some(f) => Some(MemBackend::new(f.node, offset as u64)),
                    None => {
                        return -1;
                    },
                },
                _ => {
                    return -1;
                },
            }
        };
        let id: usize = match &self.scheduler.current.0 {
            Some(t) => t.memory_set,
            None => 0,
        };
        assert(self.spaces@[id as int].wf());
        let free = self.frames.free_frames();
        if !self.spaces[id].mmap_check(start, len, fixed, backend, self.fs.nodes.len(), free) {
            return -1;
        }
        let addr = self.spaces[id].mmap(start, len, prot, fixed, backend, &mut self.frames, &mut self.fs);
        proof {
            self.lemma_space_changed(*old(self), id as int);
        }
        addr
    }

    /// The invariant of the kernel holds again after a change of one address
    /// space that keeps it in order and its areas backed, where the stored
    /// files are as many as before and the pool of frames is in order.
    pub proof fn lemma_space_changed(&self, pre: Kernel, id: int)
        requires
            pre.wf(),
            0 <= id < pre.spaces@.len(),
            self.spaces@.len() == pre.spaces@.len(),
            forall|j: int| 0 <= j < pre.spaces@.len() && j != id ==> #[trigger] self.spaces@[j] == pre.spaces@[j],
            self.spaces@[id].wf(),
            areas_backed(self.spaces@[id].areas(), pre.fs.files().len() as int),
            self.fs.files().len() == pre.fs.files().len(),
            self.frames.wf(),
            self.scheduler == pre.scheduler,
            self.clock == pre.clock,
        ensures
            self.wf(),
    {
        assert forall|i: int| 0 <= i < self.spaces@.len() implies (#[trigger] self.spaces@[i]).wf()
            && areas_backed(self.spaces@[i].areas(), self.fs.files().len() as int) by {
            if i != id {
                assert(self.spaces@[i] == pre.spaces@[i]);
            }
        }
    }

    /// What `munmap` does: where the address space of the current task can
    /// free the range, it does so as `memory_set::munmap_post` says and the
    /// result is 0. Else the result is -1 and nothing changes.
    pub open spec fn sys_munmap_post(&self, post: Kernel, start: usize, len: usize, r: isize) -> bool {
        if self.cur_space().munmap_admissible(
            start as int,
            len as int,
            self.frames.spec_free_frames() as int,
        ) {
            &&& r == 0
            &&& post == (Kernel { spaces: post.spaces, frames: post.frames, fs: post.fs, ..*self })
            &&& self.only_cur_space_changed(post)
            &&& post.fs.open@ == self.fs.open@
            &&& post.fs.paths() == self.fs.paths()
            &&& post.frames.end_paddr() == self.frames.end_paddr()
            &&& munmap_post(
                self.cur_space(),
                post.spaces@[self.cur().memory_set as int],
                start,
                len,
                self.fs.files(),
                post.fs.files(),
                self.frames,
                post.frames,
            )
        } else {
            r == -1 && post == *self
        }
    }

    /// Frees a range of the address space of the current task. The caller
    /// flushes the TLB afterwards.
    pub fn sys_munmap(&mut self, start: usize, len: usize) -> (r: isize)
        requires
            old(self).wf(),
            old(self).scheduler.current.0.is_some(),
        ensures
            final(self).wf(),
            old(self).sys_munmap_post(*final(self), start, len, r),
    {
        let id: usize = match &self.scheduler.current.0 {
            Some(t) => t.memory_set,
            None => 0,
        };
        assert(self.spaces@[id as int].wf());
        let free = self.frames.free_frames();
        if !self.spaces[id].munmap_check(start, len, free) {
            return -1;
        }
        self.spaces[id].munmap(start, len, &mut self.frames, &mut self.fs);
        proof {
            self.lemma_space_changed(*old(self), id as int);
        }
        0
    }

    /// What `mprotect` does: where the protection is understood and the
    /// range lies in the address space, the first area that contains the
    /// range, with its size rounded up to whole pages, gets the permissions
    /// that the protection stands for, and the result is 0, or -1 where no
    /// area contains the range. Else the result is -1 and nothing changes.
    pub open spec fn sys_mprotect_post(&self, post: Kernel, start: usize, len: usize, prot: u32, r: isize) -> bool {
        let p = MMapProtFlag::spec_from_bits(prot);
        if p.is_some() && len + 4096 <= usize::MAX && start + spec_align_up_4k(len as int)
            <= usize::MAX {
            &&& post == (Kernel { spaces: post.spaces, ..*self })
            &&& self.only_cur_space_changed(post)
            &&& mprotect_post(
                self.cur_space().areas(),
                post.spaces@[self.cur().memory_set as int].areas(),
                start as int,
                start + spec_align_up_4k(len as int),
                p.unwrap().spec_mapping_flags(),
                r,
            )
        } else {
            r == -1 && post == *self
        }
    }

    /// Changes the permissions of an area of the address space of the
    /// current task. The caller flushes the TLB afterwards.
    pub fn sys_mprotect(&mut self, start: usize, len: usize, prot: u32) -> (r: isize)
        requires
            old(self).wf(),
            old(self).scheduler.current.0.is_some(),
        ensures
            final(self).wf(),
            old(self).sys_mprotect_post(*final(self), start, len, prot, r),
    {
        let prot = match MMapProtFlag::from_bits(prot) {
            Some(p) => p.mapping_flags(),
            None => {
                return -1;
            },
        };
        if len >= usize::MAX - 4095 {
            return -1;
        }
        proof {
            crate::addr::lemma_align_4k(len as int);
        }
        if memory_addr::align_up_4k(len) > usize::MAX - start {
            return -1;
        }
        let id: usize = match &self.scheduler.current.0 {
            Some(t) => t.memory_set,
            None => 0,
        };
        assert(self.spaces@[id as int].wf());
        let ghost olds = self.spaces@[id as int].areas();
        let r = self.spaces[id].mprotect(start, len, prot);
        proof {
            let news = self.spaces@[id as int].areas();
            assert forall|i: int| 0 <= i < news.len() implies (#[trigger] news[i]).backed_by(
                self.fs.files().len() as int,
            ) by {
                assert(olds[i].backed_by(self.fs.files().len() as int));
            }
            self.lemma_space_changed(*old(self), id as int);
        }
        r
    }

    /// Resolves a page fault of the current task at `addr` for an access of
    /// kind `flags`: the area that covers `addr` brings in the page. The
    /// caller flushes the TLB afterwards.
    pub fn handle_page_fault(&mut self, addr: usize, flags: MappingFlags)
        requires
            old(self).wf(),
            old(self).scheduler.current.0.is_some(),
            old(self).cur_space().fault_resolvable(addr as int, flags),
            old(self).frames.spec_single_frames() >= 1,
        ensures
            final(self).wf(),
            *final(self) == (Kernel {
                spaces: final(self).spaces,
                frames: final(self).frames,
                ..*old(self)
            }),
            old(self).only_cur_space_changed(*final(self)),
            old(self).frames.page_taken(final(self).frames),
            page_fault_post(
                old(self).cur_space().areas(),
                final(self).cur_space().areas(),
                addr as int,
                old(self).fs.files(),
                old(self).frames.spec_next_page() as int,
            ),
            final(self).cur_space().spec_byte_at(addr as int).is_some(),
    {
        let id: usize = match &self.scheduler.current.0 {
            Some(t) => t.memory_set,
            None => 0,
        };
        assert(self.spaces@[id as int].wf());
        let ghost olds = self.spaces@[id as int].areas();
        self.spaces[id].handle_page_fault(addr, flags, &mut self.frames, &self.fs);
        proof {
            let news = self.spaces@[id as int].areas();
            crate::memory_set::lemma_find(olds, addr as int, 0);
            assert forall|i: int| 0 <= i < news.len() implies (#[trigger] news[i]).backed_by(
                self.fs.files().len() as int,
            ) by {
                assert(olds[i].backed_by(self.fs.files().len() as int));
            }
            self.lemma_space_changed(*old(self), id as int);
        }
    }
}

} // verus!
