//! Physical pages and the pool they are taken from and given back to.

use crate::addr::PAGE_SIZE_4K;
use vstd::prelude::*;

verus! {

/// One physical page: its address and the 4096 bytes it holds.
pub struct PhysPage {
    start_paddr: usize,
    data: Vec<u8>,
}

/// A sequence of `n` zero bytes.
pub open spec fn zeros(n: nat) -> Seq<u8> {
    Seq::new(n, |i: int| 0u8)
}

impl PhysPage {
    /// The physical address of the page.
    pub closed spec fn paddr(&self) -> usize {
        self.start_paddr
    }

    /// The bytes of the page.
    pub closed spec fn bytes(&self) -> Seq<u8> {
        self.data@
    }

    /// A page holds exactly one page of bytes at a page-aligned address.
    pub open spec fn wf(&self) -> bool {
        &&& self.bytes().len() == 4096
        &&& self.paddr() as int % 4096 == 0
        &&& self.paddr() + 4096 <= usize::MAX
    }

    /// The physical address of the page.
    pub fn start_paddr(&self) -> (p: usize)
        ensures
            p == self.paddr(),
    {
        self.start_paddr
    }

    /// The bytes of the page.
    pub fn as_slice(&self) -> (s: &[u8])
        ensures
            s@ == self.bytes(),
    {
        self.data.as_slice()
    }

    /// Sets every byte of the page to `byte`.
    pub fn fill(&mut self, byte: u8)
        requires
            old(self).wf(),
        ensures
            final(self).wf(),
            final(self).paddr() == old(self).paddr(),
            final(self).bytes() == Seq::new(4096, |i: int| byte),
    {
        let mut i: usize = 0;
        while i < PAGE_SIZE_4K
            invariant
                i <= 4096,
                self.data@.len() == 4096,
                self.start_paddr == old(self).start_paddr,
                forall|j: int| 0 <= j < i ==> self.data@[j] == byte,
            decreases 4096 - i,
        {
            self.data[i] = byte;
            i += 1;
        }
        assert(self.data@ =~= Seq::new(4096, |i: int| byte));
    }

    /// The bytes of a page after `src` has been stored at `offset`.
    pub open spec fn spec_written(bytes: Seq<u8>, offset: int, src: Seq<u8>) -> Seq<u8> {
        Seq::new(
            bytes.len(),
            |i: int|
                if offset <= i < offset + src.len() {
                    src[i - offset]
                } else {
                    bytes[i]
                },
        )
    }

    /// Stores `byte` at byte `offset` of the page.
    pub fn set_byte(&mut self, offset: usize, byte: u8)
        requires
            old(self).wf(),
            offset < 4096,
        ensures
            final(self).wf(),
            final(self).paddr() == old(self).paddr(),
            final(self).bytes() == old(self).bytes().update(offset as int, byte),
    {
        self.data[offset] = byte;
    }

    /// The byte at byte `offset` of the page.
    pub fn get_byte(&self, offset: usize) -> (byte: u8)
        requires
            self.wf(),
            offset < 4096,
        ensures
            byte == self.bytes()[offset as int],
    {
        self.data[offset]
    }

    /// Stores `src` in the page, starting at byte `offset`.
    pub fn write_at(&mut self, offset: usize, src: &[u8])
        requires
            old(self).wf(),
            offset + src@.len() <= 4096,
        ensures
            final(self).wf(),
            final(self).paddr() == old(self).paddr(),
            final(self).bytes() == Self::spec_written(old(self).bytes(), offset as int, src@),
    {
        let n: usize = src.len();
        let mut i: usize = 0;
        while i < n
            invariant
                i <= n,
                n == src@.len(),
                offset + n <= 4096,
                self.data@.len() == 4096,
                self.start_paddr == old(self).start_paddr,
                forall|j: int| 0 <= j < 4096 && !(offset <= j < offset + i) ==> self.data@[j] == old(self).data@[j],
                forall|j: int| offset <= j < offset + i ==> self.data@[j] == src@[j - offset],
            decreases n - i,
        {
            self.data[offset + i] = src[i];
            i += 1;
        }
        assert(self.data@ =~= Self::spec_written(old(self).data@, offset as int, src@));
    }
}

/// The addresses of `n` frames with consecutive addresses from `base` on.
pub open spec fn spec_run(base: int, n: int) -> Seq<usize> {
    Seq::new(n as nat, |i: int| (base + 4096 * i) as usize)
}

/// The pool of free physical memory: the page-aligned range from `next` up to
/// `end`, handed out in ascending order, and the frames that were given back.
pub struct FrameAllocator {
    next: usize,
    end: usize,
    returned: Vec<usize>,
}

impl FrameAllocator {
    /// The address of the frame that is handed out next.
    pub closed spec fn next_paddr(&self) -> usize {
        self.next
    }

    /// The address at which the pool ends.
    pub closed spec fn end_paddr(&self) -> usize {
        self.end
    }

    /// The addresses of the frames that were given back and not handed out
    /// again, in the order in which they came back.
    pub closed spec fn returned(&self) -> Seq<usize> {
        self.returned@
    }

    /// The pool is a page-aligned range, and every frame that was given back
    /// is a page of the address space.
    pub open spec fn wf(&self) -> bool {
        &&& self.next_paddr() <= self.end_paddr()
        &&& self.next_paddr() as int % 4096 == 0
        &&& self.end_paddr() as int % 4096 == 0
        &&& forall|i: int|
            0 <= i < self.returned().len() ==> (#[trigger] self.returned()[i]) as int % 4096 == 0
                && self.returned()[i] + 4096 <= usize::MAX
    }

    /// Number of frames of the pool that were never handed out. Frames with
    /// consecutive addresses are taken from these.
    pub open spec fn spec_free_frames(&self) -> nat {
        ((self.end_paddr() - self.next_paddr()) / 4096) as nat
    }

    /// Number of frames that can be handed out one by one: those that were
    /// never handed out and those that were given back.
    pub open spec fn spec_single_frames(&self) -> nat {
        self.spec_free_frames() + self.returned().len()
    }

    /// The address of the frame that `alloc_page` hands out: the lowest that
    /// was never handed out and, when there is none, the one that was given
    /// back last.
    pub open spec fn spec_next_page(&self) -> usize {
        if self.spec_free_frames() >= 1 {
            self.next_paddr()
        } else {
            self.returned().last()
        }
    }

    /// `after` is this pool with the frame of `spec_next_page` taken.
    pub open spec fn page_taken(&self, after: FrameAllocator) -> bool {
        &&& after.end_paddr() == self.end_paddr()
        &&& if self.spec_free_frames() >= 1 {
            after.next_paddr() == self.next_paddr() + 4096 && after.returned() == self.returned()
        } else {
            after.next_paddr() == self.next_paddr() && after.returned()
                == self.returned().drop_last()
        }
    }

    /// A pool of `frames` frames that starts at `start`; `None` unless `start`
    /// is page-aligned and the pool fits in the address space.
    pub fn new(start: usize, frames: usize) -> (r: Option<Self>)
        ensures
            r.is_some() <==> start as int % 4096 == 0 && start + frames * 4096 <= usize::MAX,
            r.is_some() ==> r.unwrap().wf() && r.unwrap().next_paddr() == start
                && r.unwrap().spec_free_frames() == frames && r.unwrap().returned().len() == 0,
    {
        if start % PAGE_SIZE_4K != 0 {
            return None;
        }
        if frames > (usize::MAX - start) / PAGE_SIZE_4K {
            return None;
        }
        let end: usize = start + frames * PAGE_SIZE_4K;
        Some(FrameAllocator { next: start, end, returned: Vec::new() })
    }

    /// Number of frames of the pool that were never handed out.
    pub fn free_frames(&self) -> (n: usize)
        requires
            self.wf(),
        ensures
            n == self.spec_free_frames(),
    {
        (self.end - self.next) / PAGE_SIZE_4K
    }

    /// Number of frames that were given back and not handed out again.
    pub fn returned_frames(&self) -> (n: usize)
        ensures
            n == self.returned().len(),
    {
        self.returned.len()
    }

    /// Whether `alloc_page` has a frame to hand out.
    pub fn has_page(&self) -> (r: bool)
        requires
            self.wf(),
        ensures
            r == (self.spec_single_frames() >= 1),
    {
        self.end - self.next >= PAGE_SIZE_4K || self.returned.len() > 0
    }

    /// Takes one frame from the pool: the lowest that was never handed out
    /// and, when there is none, the one that was given back last. The page
    /// comes zero-filled.
    pub fn alloc_page(&mut self) -> (r: Option<PhysPage>)
        requires
            old(self).wf(),
        ensures
            final(self).wf(),
            r.is_some() <==> old(self).spec_single_frames() >= 1,
            r.is_none() ==> *final(self) == *old(self),
            r.is_some() ==> {
                &&& r.unwrap().wf()
                &&& r.unwrap().paddr() == old(self).spec_next_page()
                &&& r.unwrap().bytes() == zeros(4096)
                &&& old(self).page_taken(*final(self))
            },
    {
        if self.end - self.next < PAGE_SIZE_4K && self.returned.len() == 0 {
            return None;
        }
        let paddr: usize = if self.end - self.next >= PAGE_SIZE_4K {
            let fresh: usize = self.next;
            self.next = self.next + PAGE_SIZE_4K;
            fresh
        } else {
            let back: usize = self.returned.pop().unwrap();
            assert(self.returned@ =~= old(self).returned@.drop_last());
            back
        };
        let data: Vec<u8> = vec![0u8; PAGE_SIZE_4K];
        assert(data@ =~= zeros(4096));
        Some(PhysPage { start_paddr: paddr, data })
    }

    /// Gives the frame of `page` back to the pool.
    pub fn dealloc(&mut self, page: PhysPage)
        requires
            old(self).wf(),
            page.wf(),
        ensures
            final(self).wf(),
            final(self).next_paddr() == old(self).next_paddr(),
            final(self).end_paddr() == old(self).end_paddr(),
            final(self).returned() == old(self).returned().push(page.paddr()),
    {
        self.returned.push(page.start_paddr);
        assert forall|i: int| 0 <= i < self.returned().len() implies (#[trigger] self.returned()[i]) as int
            % 4096 == 0 && self.returned()[i] + 4096 <= usize::MAX by {
            if i < old(self).returned().len() {
                assert(self.returned()[i] == old(self).returned()[i]);
            }
        }
    }

    /// Gives back the `n` frames with consecutive addresses from `base` on,
    /// in ascending order of address.
    pub fn dealloc_run(&mut self, base: usize, n: usize)
        requires
            old(self).wf(),
            base as int % 4096 == 0,
            base + n * 4096 <= usize::MAX,
        ensures
            final(self).wf(),
            final(self).next_paddr() == old(self).next_paddr(),
            final(self).end_paddr() == old(self).end_paddr(),
            final(self).returned() == old(self).returned() + spec_run(base as int, n as int),
    {
        let mut i: usize = 0;
        while i < n
            invariant
                i <= n,
                self.wf(),
                base as int % 4096 == 0,
                base + n * 4096 <= usize::MAX,
                self.next == old(self).next,
                self.end == old(self).end,
                self.returned@ == old(self).returned@ + spec_run(base as int, i as int),
            decreases n - i,
        {
            assert(i * 4096 + 4096 <= n * 4096) by (nonlinear_arith)
                requires
                    i < n,
            ;
            let paddr: usize = base + i * PAGE_SIZE_4K;
            let ghost before = self.returned();
            assert(paddr as int % 4096 == 0);
            assert(forall|k: int|
                0 <= k < before.len() ==> (#[trigger] before[k]) as int % 4096 == 0 && before[k] + 4096
                    <= usize::MAX);
            self.returned.push(paddr);
            assert forall|k: int| 0 <= k < self.returned().len() implies (#[trigger] self.returned()[k]) as int
                % 4096 == 0 && self.returned()[k] + 4096 <= usize::MAX by {
                if k < before.len() {
                    assert(self.returned()[k] == before[k]);
                }
            }
            assert(spec_run(base as int, i + 1) =~= spec_run(base as int, i as int).push(paddr));
            assert(self.returned@ =~= old(self).returned@ + spec_run(base as int, i + 1));
            i += 1;
        }
    }

    /// Takes `n` frames with consecutive addresses from the pool. The pages
    /// come zero-filled, in ascending order of address, each in a filled slot.
    pub fn alloc_contiguous(&mut self, n: usize) -> (r: Option<Vec<Option<PhysPage>>>)
        requires
            old(self).wf(),
        ensures
            final(self).wf(),
            r.is_some() <==> old(self).spec_free_frames() >= n,
            r.is_none() ==> *final(self) == *old(self),
            r.is_some() ==> {
                &&& r.unwrap()@.len() == n
                &&& final(self).next_paddr() == old(self).next_paddr() + n * 4096
                &&& final(self).end_paddr() == old(self).end_paddr()
                &&& final(self).returned() == old(self).returned()
                &&& forall|i: int|
                    0 <= i < n ==> {
                        &&& (#[trigger] r.unwrap()@[i]).is_some()
                        &&& r.unwrap()@[i].unwrap().wf()
                        &&& r.unwrap()@[i].unwrap().paddr() == old(self).next_paddr() + i * 4096
                        &&& r.unwrap()@[i].unwrap().bytes() == zeros(4096)
                    }
            },
    {
        if (self.end - self.next) / PAGE_SIZE_4K < n {
            return None;
        }
        let mut pages: Vec<Option<PhysPage>> = Vec::new();
        let mut i: usize = 0;
        while i < n
            invariant
                i <= n,
                self.wf(),
                self.end == old(self).end,
                self.returned@ == old(self).returned@,
                self.next == old(self).next + i * 4096,
                (old(self).end - old(self).next) / 4096 >= n,
                pages@.len() == i,
                forall|j: int|
                    0 <= j < i ==> {
                        &&& (#[trigger] pages@[j]).is_some()
                        &&& pages@[j].unwrap().wf()
                        &&& pages@[j].unwrap().paddr() == old(self).next + j * 4096
                        &&& pages@[j].unwrap().bytes() == zeros(4096)
                    },
            decreases n - i,
        {
            let page = self.alloc_page();
            assert(page.is_some());
            pages.push(page);
            i += 1;
        }
        Some(pages)
    }
}

} // verus!
