//! The page table of one address space, as the map from page-aligned virtual
//! addresses to entries that the hardware table holds.

use crate::addr::PAGE_SIZE_4K;
use crate::flags::MappingFlags;
use crate::frame::FrameAllocator;
use std::collections::HashMap;
use vstd::prelude::*;

verus! {

broadcast use vstd::std_specs::hash::group_hash_axioms;

/// Why a page-table operation was refused.
#[derive(Clone, Copy, Debug, PartialEq, Eq, Structural)]
pub enum PagingError {
    /// An address or a size is not a multiple of the page size.
    NotAligned,
    /// The range runs past the end of the address space.
    OutOfRange,
    /// A page of the range already has an entry.
    AlreadyMapped,
    /// A page of the range has no entry.
    NotMapped,
}

/// What the table holds for one page.
#[derive(Clone, Copy, Debug, PartialEq, Eq, Structural)]
pub enum PageEntry {
    /// Any access to the page raises a page fault.
    Fault,
    /// The page is backed by the frame at `paddr` and may be accessed as `flags` say.
    Mapped { paddr: usize, flags: MappingFlags },
}

/// Whether `va` is the address of a page that lies in `[start, start + size)`.
pub open spec fn page_in(va: int, start: int, size: int) -> bool {
    start <= va < start + size && va % 4096 == 0
}

/// When a range is acceptable to the table: page-aligned and inside the
/// address space.
pub open spec fn range_ok(start: int, size: int) -> bool {
    start % 4096 == 0 && size % 4096 == 0 && start + size <= usize::MAX
}

/// The entries of `m`, with every page of `[start, start + size)` set to
/// `Fault`, or, where `paddr` is given, mapped with `flags` to the frame at
/// the same distance from `paddr` as the page is from `start`.
pub open spec fn spec_fill(
    m: Map<usize, PageEntry>,
    start: int,
    size: int,
    paddr: Option<usize>,
    flags: MappingFlags,
) -> Map<usize, PageEntry> {
    Map::new(
        |va: usize| m.contains_key(va) || page_in(va as int, start, size),
        |va: usize|
            if page_in(va as int, start, size) {
                match paddr {
                    Some(pa) => PageEntry::Mapped { paddr: (pa + (va - start)) as usize, flags },
                    None => PageEntry::Fault,
                }
            } else {
                m[va]
            },
    )
}

/// The entries of `m` without those of the pages of `[start, start + size)`.
pub open spec fn spec_clear(m: Map<usize, PageEntry>, start: int, size: int) -> Map<
    usize,
    PageEntry,
> {
    Map::new(
        |va: usize| m.contains_key(va) && !page_in(va as int, start, size),
        |va: usize| m[va],
    )
}

/// No page of `[start, start + size)` has an entry in `m`.
pub open spec fn spec_range_unmapped(m: Map<usize, PageEntry>, start: int, size: int) -> bool {
    forall|va: usize| page_in(va as int, start, size) ==> !#[trigger] m.contains_key(va)
}

/// Every page of `[start, start + size)` has an entry in `m`.
pub open spec fn spec_range_mapped(m: Map<usize, PageEntry>, start: int, size: int) -> bool {
    forall|va: usize| #[trigger] page_in(va as int, start, size) ==> m.contains_key(va)
}

/// The two maps agree on every page outside `[start, start + size)`.
pub open spec fn same_outside(
    a: Map<usize, PageEntry>,
    b: Map<usize, PageEntry>,
    start: int,
    size: int,
) -> bool {
    forall|va: usize|
        #![trigger a.contains_key(va)]
        #![trigger b.contains_key(va)]
        !page_in(va as int, start, size) ==> (a.contains_key(va) == b.contains_key(va)) && (
        a.contains_key(va) ==> a[va] == b[va])
}

/// A page table: its root and its entries.
pub struct PageTable {
    root: usize,
    entries: HashMap<usize, PageEntry>,
}

impl PageTable {
    /// The entries of the table, by page address.
    pub closed spec fn view(&self) -> Map<usize, PageEntry> {
        self.entries@
    }

    /// The physical address of the root of the table.
    pub closed spec fn root(&self) -> usize {
        self.root
    }

    /// Entries exist for page addresses only and map to frames, and the root
    /// is a frame.
    pub open spec fn wf(&self) -> bool {
        &&& self.root() as int % 4096 == 0
        &&& forall|va: usize| #[trigger] self@.contains_key(va) ==> va as int % 4096 == 0
        &&& forall|va: usize| #[trigger]
            self@.contains_key(va) ==> match self@[va] {
                PageEntry::Mapped { paddr, flags } => paddr as int % 4096 == 0,
                PageEntry::Fault => true,
            }
    }

    /// What an access to `vaddr` resolves to: the physical address and the
    /// permissions, where the page of `vaddr` is mapped to a frame.
    pub open spec fn spec_query(&self, vaddr: usize) -> Option<(usize, MappingFlags)> {
        let page = (vaddr - vaddr % 4096) as usize;
        if self@.contains_key(page) {
            match self@[page] {
                PageEntry::Mapped { paddr, flags } => Some(((paddr + vaddr % 4096) as usize, flags)),
                PageEntry::Fault => None,
            }
        } else {
            None
        }
    }

    /// An empty table whose root is a frame taken from the pool; `None` when
    /// the pool has no frame to hand out.
    pub fn try_new(frames: &mut FrameAllocator) -> (r: Option<Self>)
        requires
            old(frames).wf(),
        ensures
            final(frames).wf(),
            r.is_some() <==> old(frames).spec_single_frames() >= 1,
            r.is_none() ==> *final(frames) == *old(frames),
            r.is_some() ==> {
                &&& r.unwrap().wf()
                &&& r.unwrap()@ == Map::<usize, PageEntry>::empty()
                &&& r.unwrap().root() == old(frames).spec_next_page()
                &&& old(frames).page_taken(*final(frames))
            },
    {
        match frames.alloc_page() {
            Some(page) => {
                Some(PageTable { root: page.start_paddr(), entries: HashMap::new() })
            },
            None => None,
        }
    }

    /// The physical address of the root of the table.
    pub fn root_paddr(&self) -> (p: usize)
        ensures
            p == self.root(),
    {
        self.root
    }

    /// The entry of the page at `page`, if it has one.
    pub fn entry(&self, page: usize) -> (r: Option<PageEntry>)
        ensures
            r == (if self@.contains_key(page) {
                Some(self@[page])
            } else {
                None
            }),
    {
        match self.entries.get(&page) {
            Some(e) => Some(*e),
            None => None,
        }
    }

    /// What an access to `vaddr` resolves to; `NotMapped` where the page has
    /// no entry or faults.
    pub fn query(&self, vaddr: usize) -> (r: Result<(usize, MappingFlags), PagingError>)
        requires
            self.wf(),
        ensures
            r == (match self.spec_query(vaddr) {
                Some(t) => Ok::<(usize, MappingFlags), PagingError>(t),
                None => Err(PagingError::NotMapped),
            }),
    {
        let offset: usize = vaddr % PAGE_SIZE_4K;
        let page: usize = vaddr - offset;
        match self.entries.get(&page) {
            Some(PageEntry::Mapped { paddr, flags }) => {
                assert(self.entries@.contains_key(page));
                assert(usize::MAX as int % 4096 == 4095) by {
                    assert(usize::MAX == 0xffff_ffff || usize::MAX == 0xffff_ffff_ffff_ffff);
                }
                Ok((*paddr + offset, *flags))
            },
            _ => Err(PagingError::NotMapped),
        }
    }

    /// Whether some page of the range has an entry.
    fn any_mapped(&self, vaddr: usize, pages: usize) -> (r: bool)
        requires
            self.wf(),
            vaddr as int % 4096 == 0,
            vaddr + pages * 4096 <= usize::MAX,
        ensures
            r == !spec_range_unmapped(self@, vaddr as int, pages * 4096),
    {
        let mut k: usize = 0;
        while k < pages
            invariant
                k <= pages,
                vaddr as int % 4096 == 0,
                vaddr + pages * 4096 <= usize::MAX,
                spec_range_unmapped(self@, vaddr as int, k * 4096),
            decreases pages - k,
        {
            let va: usize = vaddr + k * PAGE_SIZE_4K;
            if self.entries.contains_key(&va) {
                assert(page_in(va as int, vaddr as int, pages * 4096));
                return true;
            }
            assert forall|x: usize| page_in(x as int, vaddr as int, (k + 1) * 4096) implies !self@.contains_key(x) by {
                if !page_in(x as int, vaddr as int, k * 4096) {
                    assert(x == va);
                }
            }
            k += 1;
        }
        false
    }

    /// Whether every page of the range has an entry.
    fn all_mapped(&self, vaddr: usize, pages: usize) -> (r: bool)
        requires
            self.wf(),
            vaddr as int % 4096 == 0,
            vaddr + pages * 4096 <= usize::MAX,
        ensures
            r == spec_range_mapped(self@, vaddr as int, pages * 4096),
    {
        let mut k: usize = 0;
        while k < pages
            invariant
                k <= pages,
                vaddr as int % 4096 == 0,
                vaddr + pages * 4096 <= usize::MAX,
                spec_range_mapped(self@, vaddr as int, k * 4096),
            decreases pages - k,
        {
            let va: usize = vaddr + k * PAGE_SIZE_4K;
            if !self.entries.contains_key(&va) {
                assert(page_in(va as int, vaddr as int, pages * 4096));
                return false;
            }
            assert forall|x: usize| #[trigger] page_in(x as int, vaddr as int, (k + 1) * 4096) implies self@.contains_key(x) by {
                if !page_in(x as int, vaddr as int, k * 4096) {
                    assert(x == va);
                }
            }
            k += 1;
        }
        true
    }

    /// Sets the entry of every page of the range.
    fn fill(&mut self, vaddr: usize, pages: usize, paddr: Option<usize>, flags: MappingFlags)
        requires
            old(self).wf(),
            vaddr as int % 4096 == 0,
            vaddr + pages * 4096 <= usize::MAX,
            paddr.is_some() ==> paddr.unwrap() + pages * 4096 <= usize::MAX,
            paddr.is_some() ==> paddr.unwrap() as int % 4096 == 0,
        ensures
            final(self).wf(),
            final(self).root() == old(self).root(),
            final(self)@ == spec_fill(old(self)@, vaddr as int, pages * 4096, paddr, flags),
    {
        let mut k: usize = 0;
        assert(self.entries@ =~= spec_fill(old(self)@, vaddr as int, 0, paddr, flags));
        while k < pages
            invariant
                k <= pages,
                self.wf(),
                self.root == old(self).root,
                vaddr as int % 4096 == 0,
                vaddr + pages * 4096 <= usize::MAX,
                paddr.is_some() ==> paddr.unwrap() + pages * 4096 <= usize::MAX,
                paddr.is_some() ==> paddr.unwrap() as int % 4096 == 0,
                self.entries@ == spec_fill(old(self)@, vaddr as int, k * 4096, paddr, flags),
            decreases pages - k,
        {
            let va: usize = vaddr + k * PAGE_SIZE_4K;
            let entry = match paddr {
                Some(pa) => PageEntry::Mapped { paddr: pa + k * PAGE_SIZE_4K, flags },
                None => PageEntry::Fault,
            };
            self.entries.insert(va, entry);
            assert(self.entries@ =~= spec_fill(
                old(self)@,
                vaddr as int,
                (k + 1) * 4096,
                paddr,
                flags,
            )) by {
                assert forall|x: usize| #[trigger] page_in(x as int, vaddr as int, (k + 1) * 4096)
                    && !page_in(x as int, vaddr as int, k * 4096) implies x == va by {}
            }
            k += 1;
        }
    }

    /// Maps the pages of `[vaddr, vaddr + size)` to the frames of
    /// `[paddr, paddr + size)` with `flags`. Nothing is changed unless every
    /// page of the range is free. `allow_huge` permits large mappings in the
    /// hardware table; it does not change what the pages resolve to.
    pub fn map_region(
        &mut self,
        vaddr: usize,
        paddr: usize,
        size: usize,
        flags: MappingFlags,
        allow_huge: bool,
    ) -> (r: Result<(), PagingError>)
        requires
            old(self).wf(),
        ensures
            final(self).wf(),
            final(self).root() == old(self).root(),
            r == (if !(vaddr as int % 4096 == 0 && paddr as int % 4096 == 0 && size as int % 4096
                == 0) {
                Err::<(), PagingError>(PagingError::NotAligned)
            } else if vaddr + size > usize::MAX || paddr + size > usize::MAX {
                Err(PagingError::OutOfRange)
            } else if !spec_range_unmapped(old(self)@, vaddr as int, size as int) {
                Err(PagingError::AlreadyMapped)
            } else {
                Ok(())
            }),
            r.is_err() ==> final(self)@ == old(self)@,
            r.is_ok() ==> final(self)@ == spec_fill(
                old(self)@,
                vaddr as int,
                size as int,
                Some(paddr),
                flags,
            ),
    {
        if vaddr % PAGE_SIZE_4K != 0 || paddr % PAGE_SIZE_4K != 0 || size % PAGE_SIZE_4K != 0 {
            return Err(PagingError::NotAligned);
        }
        if size > usize::MAX - vaddr || size > usize::MAX - paddr {
            return Err(PagingError::OutOfRange);
        }
        let pages: usize = size / PAGE_SIZE_4K;
        if self.any_mapped(vaddr, pages) {
            return Err(PagingError::AlreadyMapped);
        }
        self.fill(vaddr, pages, Some(paddr), flags);
        Ok(())
    }

    /// Gives every page of `[vaddr, vaddr + size)` an entry that faults on any
    /// access. Nothing is changed unless every page of the range is free.
    pub fn map_fault_region(&mut self, vaddr: usize, size: usize) -> (r: Result<(), PagingError>)
        requires
            old(self).wf(),
        ensures
            final(self).wf(),
            final(self).root() == old(self).root(),
            r == (if !(vaddr as int % 4096 == 0 && size as int % 4096 == 0) {
                Err::<(), PagingError>(PagingError::NotAligned)
            } else if vaddr + size > usize::MAX {
                Err(PagingError::OutOfRange)
            } else if !spec_range_unmapped(old(self)@, vaddr as int, size as int) {
                Err(PagingError::AlreadyMapped)
            } else {
                Ok(())
            }),
            r.is_err() ==> final(self)@ == old(self)@,
            r.is_ok() ==> final(self)@ == spec_fill(
                old(self)@,
                vaddr as int,
                size as int,
                None,
                MappingFlags { read: false, write: false, execute: false, user: false },
            ),
    {
        if vaddr % PAGE_SIZE_4K != 0 || size % PAGE_SIZE_4K != 0 {
            return Err(PagingError::NotAligned);
        }
        if size > usize::MAX - vaddr {
            return Err(PagingError::OutOfRange);
        }
        let pages: usize = size / PAGE_SIZE_4K;
        if self.any_mapped(vaddr, pages) {
            return Err(PagingError::AlreadyMapped);
        }
        self.fill(vaddr, pages, None, MappingFlags::empty());
        Ok(())
    }

    /// Maps the pages of `[vaddr, vaddr + size)` to the frames of
    /// `[paddr, paddr + size)` with `flags`, replacing whatever entries the
    /// pages had.
    pub fn map_overwrite(&mut self, vaddr: usize, paddr: usize, size: usize, flags: MappingFlags) -> (r:
        Result<(), PagingError>)
        requires
            old(self).wf(),
        ensures
            final(self).wf(),
            final(self).root() == old(self).root(),
            r == (if !(vaddr as int % 4096 == 0 && paddr as int % 4096 == 0 && size as int % 4096
                == 0) {
                Err::<(), PagingError>(PagingError::NotAligned)
            } else if vaddr + size > usize::MAX || paddr + size > usize::MAX {
                Err(PagingError::OutOfRange)
            } else {
                Ok(())
            }),
            r.is_err() ==> final(self)@ == old(self)@,
            r.is_ok() ==> final(self)@ == spec_fill(
                old(self)@,
                vaddr as int,
                size as int,
                Some(paddr),
                flags,
            ),
    {
        if vaddr % PAGE_SIZE_4K != 0 || paddr % PAGE_SIZE_4K != 0 || size % PAGE_SIZE_4K != 0 {
            return Err(PagingError::NotAligned);
        }
        if size > usize::MAX - vaddr || size > usize::MAX - paddr {
            return Err(PagingError::OutOfRange);
        }
        self.fill(vaddr, size / PAGE_SIZE_4K, Some(paddr), flags);
        Ok(())
    }

    /// Removes the entries of the pages of `[vaddr, vaddr + size)`. Nothing is
    /// changed unless every page of the range has an entry.
    pub fn unmap_region(&mut self, vaddr: usize, size: usize) -> (r: Result<(), PagingError>)
        requires
            old(self).wf(),
        ensures
            final(self).wf(),
            final(self).root() == old(self).root(),
            r == (if !(vaddr as int % 4096 == 0 && size as int % 4096 == 0) {
                Err::<(), PagingError>(PagingError::NotAligned)
            } else if vaddr + size > usize::MAX {
                Err(PagingError::OutOfRange)
            } else if !spec_range_mapped(old(self)@, vaddr as int, size as int) {
                Err(PagingError::NotMapped)
            } else {
                Ok(())
            }),
            r.is_err() ==> final(self)@ == old(self)@,
            r.is_ok() ==> final(self)@ == spec_clear(old(self)@, vaddr as int, size as int),
    {
        if vaddr % PAGE_SIZE_4K != 0 || size % PAGE_SIZE_4K != 0 {
            return Err(PagingError::NotAligned);
        }
        if size > usize::MAX - vaddr {
            return Err(PagingError::OutOfRange);
        }
        let pages: usize = size / PAGE_SIZE_4K;
        if !self.all_mapped(vaddr, pages) {
            return Err(PagingError::NotMapped);
        }
        let mut k: usize = 0;
        assert(self.entries@ =~= spec_clear(old(self)@, vaddr as int, 0));
        while k < pages
            invariant
                k <= pages,
                self.wf(),
                self.root == old(self).root,
                vaddr as int % 4096 == 0,
                vaddr + pages * 4096 <= usize::MAX,
                self.entries@ == spec_clear(old(self)@, vaddr as int, k * 4096),
            decreases pages - k,
        {
            let va: usize = vaddr + k * PAGE_SIZE_4K;
            self.entries.remove(&va);
            assert(self.entries@ =~= spec_clear(old(self)@, vaddr as int, (k + 1) * 4096)) by {
                assert forall|x: usize| #[trigger] page_in(x as int, vaddr as int, (k + 1) * 4096)
                    && !page_in(x as int, vaddr as int, k * 4096) implies x == va by {}
            }
            k += 1;
        }
        Ok(())
    }
}

} // verus!
