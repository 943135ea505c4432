//! One contiguous region of an address space.

use crate::addr::PAGE_SIZE_4K;
use crate::backend::MemBackend;
use crate::file::{spec_write, FileSystem, SeekFrom};
use crate::flags::MappingFlags;
use crate::frame::{zeros, FrameAllocator, PhysPage};
use crate::page_table::{
    page_in, range_ok, same_outside, spec_fill, spec_range_unmapped, PageEntry, PageTable,
};
use vstd::prelude::*;

verus! {

/// The region `[vaddr, vaddr + 4096 * pages.len())`. Slot `i` of `pages` is
/// either empty, and its page is brought in at the first access, or holds the
/// physical page that backs the `i`-th page of the region.
pub struct MapArea {
    pub pages: Vec<Option<PhysPage>>,
    pub vaddr: usize,
    pub flags: MappingFlags,
    pub backend: Option<MemBackend>,
}

impl MapArea {
    /// Size of the region in bytes.
    pub open spec fn spec_size(&self) -> int {
        (self.pages@.len() * 4096) as int
    }

    /// The address just past the region.
    pub open spec fn spec_end_va(&self) -> int {
        self.vaddr + self.spec_size()
    }

    /// The region is page-aligned and lies in the address space, and every
    /// filled slot holds a whole page.
    pub open spec fn wf(&self) -> bool {
        &&& self.vaddr as int % 4096 == 0
        &&& self.spec_end_va() <= usize::MAX
        &&& self.spec_size() <= i64::MAX
        &&& self.backend.is_some() ==> self.backend.unwrap().cursor + self.spec_size()
            <= usize::MAX
        &&& forall|i: int|
            0 <= i < self.pages@.len() && (#[trigger] self.pages@[i]).is_some()
                ==> self.pages@[i].unwrap().wf()
    }

    /// Whether `va` lies in the region.
    pub open spec fn covers(&self, va: int) -> bool {
        self.vaddr <= va < self.spec_end_va()
    }

    /// The slot of the page that holds `va`.
    pub open spec fn slot_of(&self, va: int) -> int {
        (va - self.vaddr) / 4096
    }

    /// Whether slot `i` is filled.
    pub open spec fn resident(&self, i: int) -> bool {
        0 <= i < self.pages@.len() && self.pages@[i].is_some()
    }

    /// Whether every slot is filled.
    pub open spec fn all_resident(&self) -> bool {
        forall|i: int| 0 <= i < self.pages@.len() ==> (#[trigger] self.pages@[i]).is_some()
    }

    /// What the first access brings into the page of slot `i`: 4096 bytes of
    /// the file from `4096 * i` past the backend's cursor on, with zeros where
    /// the file ends before; zeros where there is no backend or the read fails.
    pub open spec fn fill_bytes(&self, i: int, files: Seq<Seq<u8>>) -> Seq<u8> {
        match self.backend {
            Some(b) => match b.spec_read_from_seek(
                SeekFrom::Current((i * 4096) as i64),
                4096,
                files,
            ) {
                Ok(bytes) => bytes + zeros((4096 - bytes.len()) as nat),
                Err(e) => zeros(4096),
            },
            None => zeros(4096),
        }
    }

    /// The file of the backend, if there is one, is among the first `nfiles`
    /// stored files.
    pub open spec fn backed_by(&self, nfiles: int) -> bool {
        self.backend.is_some() ==> self.backend.unwrap().file < nfiles
    }

    /// The bytes that a read of the page of slot `i` observes.
    pub open spec fn page_bytes(&self, i: int, files: Seq<Seq<u8>>) -> Seq<u8> {
        match self.pages@[i] {
            Some(p) => p.bytes(),
            None => self.fill_bytes(i, files),
        }
    }

    /// The bytes that a read of the whole region observes.
    pub open spec fn spec_bytes(&self, files: Seq<Seq<u8>>) -> Seq<u8> {
        Seq::new(self.spec_size() as nat, |k: int| self.page_bytes(k / 4096, files)[k % 4096])
    }

    /// The byte at offset `k` of the region, where its page is resident.
    pub open spec fn spec_byte(&self, k: int) -> u8 {
        self.pages@[k / 4096].unwrap().bytes()[k % 4096]
    }

    /// The page-table entry that belongs to slot `i`.
    pub open spec fn spec_entry(&self, i: int) -> PageEntry {
        match self.pages@[i] {
            Some(p) => PageEntry::Mapped { paddr: p.paddr(), flags: self.flags },
            None => PageEntry::Fault,
        }
    }

    /// The table `pt` agrees with the region: the page of every filled slot
    /// resolves to the slot's physical page with the region's permissions,
    /// and the page of every empty slot faults.
    pub open spec fn mapped_in(&self, pt: Map<usize, PageEntry>) -> bool {
        forall|va: usize| #[trigger]
            page_in(va as int, self.vaddr as int, self.spec_size()) ==> pt.contains_key(va)
                && pt[va] == self.spec_entry(self.slot_of(va as int))
    }

    /// Whether `[start, end)` overlaps the region: it starts in the region,
    /// or the region starts in it.
    pub open spec fn spec_overlap_with(&self, start: int, end: int) -> bool {
        self.vaddr <= start < self.spec_end_va() || start <= self.vaddr < end
    }

    /// Whether the region lies within `[start, end)`.
    pub open spec fn spec_contained_in(&self, start: int, end: int) -> bool {
        start <= self.vaddr && self.spec_end_va() <= end
    }

    /// Whether `[start, end)` lies within the region.
    pub open spec fn spec_contains(&self, start: int, end: int) -> bool {
        self.vaddr <= start && end <= self.spec_end_va()
    }

    /// Creates a region whose pages are brought in on first access, and gives
    /// each of its pages a faulting entry in the table.
    pub fn new_lazy(
        start: usize,
        num_pages: usize,
        flags: MappingFlags,
        backend: Option<MemBackend>,
        page_table: &mut PageTable,
    ) -> (area: Self)
        requires
            old(page_table).wf(),
            range_ok(start as int, num_pages * 4096),
            num_pages * 4096 <= i64::MAX,
            backend.is_some() ==> backend.unwrap().cursor + num_pages * 4096 <= usize::MAX,
            spec_range_unmapped(old(page_table)@, start as int, num_pages * 4096),
        ensures
            final(page_table).wf(),
            final(page_table).root() == old(page_table).root(),
            final(page_table)@ == spec_fill(
                old(page_table)@,
                start as int,
                num_pages * 4096,
                None,
                MappingFlags { read: false, write: false, execute: false, user: false },
            ),
            area.wf(),
            area.vaddr == start,
            area.flags == flags,
            area.backend == backend,
            area.pages@.len() == num_pages,
            forall|i: int| 0 <= i < num_pages ==> (#[trigger] area.pages@[i]).is_none(),
            area.mapped_in(final(page_table)@),
    {
        let mut pages: Vec<Option<PhysPage>> = Vec::new();
        let mut i: usize = 0;
        while i < num_pages
            invariant
                i <= num_pages,
                pages@.len() == i,
                forall|j: int| 0 <= j < i ==> (#[trigger] pages@[j]).is_none(),
            decreases num_pages - i,
        {
            pages.push(None);
            i += 1;
        }
        let mapped = page_table.map_fault_region(start, num_pages * PAGE_SIZE_4K);
        assert(mapped.is_ok());
        MapArea { pages, vaddr: start, flags, backend }
    }

    /// Creates a region backed by `num_pages` fresh physical pages with
    /// consecutive addresses, zero-filled, and maps them in the table: the
    /// page of every slot resolves to the frame of the slot with exactly
    /// the permissions `flags`.
    pub fn new_alloc(
        start: usize,
        num_pages: usize,
        flags: MappingFlags,
        backend: Option<MemBackend>,
        page_table: &mut PageTable,
        frames: &mut FrameAllocator,
    ) -> (area: Self)
        requires
            old(page_table).wf(),
            old(frames).wf(),
            num_pages > 0,
            old(frames).spec_free_frames() >= num_pages,
            range_ok(start as int, num_pages * 4096),
            num_pages * 4096 <= i64::MAX,
            backend.is_some() ==> backend.unwrap().cursor + num_pages * 4096 <= usize::MAX,
            spec_range_unmapped(old(page_table)@, start as int, num_pages * 4096),
        ensures
            final(page_table).wf(),
            final(page_table).root() == old(page_table).root(),
            final(page_table)@ == spec_fill(
                old(page_table)@,
                start as int,
                num_pages * 4096,
                Some(old(frames).next_paddr()),
                flags,
            ),
            final(frames).wf(),
            final(frames).next_paddr() == old(frames).next_paddr() + num_pages * 4096,
            final(frames).end_paddr() == old(frames).end_paddr(),
            final(frames).returned() == old(frames).returned(),
            area.wf(),
            area.vaddr == start,
            area.flags == flags,
            area.backend == backend,
            area.pages@.len() == num_pages,
            forall|i: int|
                0 <= i < num_pages ==> {
                    &&& (#[trigger] area.pages@[i]).is_some()
                    &&& area.pages@[i].unwrap().paddr() == old(frames).next_paddr() + i * 4096
                    &&& area.pages@[i].unwrap().bytes() == zeros(4096)
                },
            area.mapped_in(final(page_table)@),
            forall|i: int|
                0 <= i < num_pages ==> final(page_table)@.contains_key(#[trigger] ((start + i * 4096) as usize))
                    && final(page_table)@[(start + i * 4096) as usize] == (PageEntry::Mapped {
                    paddr: (old(frames).next_paddr() + i * 4096) as usize,
                    flags,
                }),
    {
        let pages = frames.alloc_contiguous(num_pages).unwrap();
        let first: usize = match &pages[0] {
            Some(p) => p.start_paddr(),
            None => 0,
        };
        let mapped = page_table.map_region(start, first, num_pages * PAGE_SIZE_4K, flags, false);
        assert(mapped.is_ok());
        let area = MapArea { pages, vaddr: start, flags, backend };
        assert forall|va: usize| #[trigger]
            page_in(va as int, area.vaddr as int, area.spec_size()) implies page_table@.contains_key(
            va,
        ) && page_table@[va] == area.spec_entry(area.slot_of(va as int)) by {
            let i = area.slot_of(va as int);
            assert(area.pages@[i].is_some());
        }
        area
    }

    /// Fills the empty slot `page_index`, whose page lies at `page_va`, with a
    /// physical page taken from the pool that holds `bytes`, and maps the
    /// page with the region's permissions.
    pub fn install_page(
        &mut self,
        page_index: usize,
        page_va: usize,
        bytes: &[u8],
        page_table: &mut PageTable,
        frames: &mut FrameAllocator,
    )
        requires
            old(self).wf(),
            old(page_table).wf(),
            old(frames).wf(),
            page_index < old(self).pages@.len(),
            page_va == old(self).vaddr + page_index * 4096,
            old(self).pages@[page_index as int].is_none(),
            bytes@.len() == 4096,
            old(frames).spec_single_frames() >= 1,
        ensures
            final(self).wf(),
            final(self).vaddr == old(self).vaddr,
            final(self).flags == old(self).flags,
            final(self).backend == old(self).backend,
            final(self).pages@.len() == old(self).pages@.len(),
            final(self).resident(page_index as int),
            final(self).pages@[page_index as int].unwrap().paddr() == old(frames).spec_next_page(),
            final(self).pages@[page_index as int].unwrap().bytes() == bytes@,
            forall|j: int|
                0 <= j < old(self).pages@.len() && j != page_index ==> final(self).pages@[j] == old(
                    self,
                ).pages@[j],
            final(page_table).wf(),
            final(page_table).root() == old(page_table).root(),
            final(page_table)@ == spec_fill(
                old(page_table)@,
                old(self).vaddr + page_index * 4096,
                4096,
                Some(old(frames).spec_next_page()),
                old(self).flags,
            ),
            final(frames).wf(),
            old(frames).page_taken(*final(frames)),
            old(self).mapped_in(old(page_table)@) ==> final(self).mapped_in(final(page_table)@),
    {
        let mut page = frames.alloc_page().unwrap();
        page.write_at(0, bytes);
        assert(page.bytes() =~= bytes@);
        let mapped = page_table.map_overwrite(page_va, page.start_paddr(), PAGE_SIZE_4K, self.flags);
        assert(mapped.is_ok());
        self.pages[page_index] = Some(page);
        proof {
            if old(self).mapped_in(old(page_table)@) {
                assert forall|va: usize| #[trigger]
                    page_in(
                        va as int,
                        self.vaddr as int,
                        self.spec_size(),
                    ) implies page_table@.contains_key(va) && page_table@[va] == self.spec_entry(
                    self.slot_of(va as int),
                ) by {
                    assert(page_in(va as int, old(self).vaddr as int, old(self).spec_size()));
                    if va == page_va {
                    } else {
                        assert(self.slot_of(va as int) != page_index);
                    }
                }
            }
        }
    }

    /// Brings in the page that holds `addr`: takes a physical page from the
    /// pool, fills it from the backend or with zeros, maps it with the region's
    /// permissions and stores it in its slot.
    pub fn handle_page_fault(
        &mut self,
        addr: usize,
        flags: MappingFlags,
        page_table: &mut PageTable,
        frames: &mut FrameAllocator,
        fs: &FileSystem,
    )
        requires
            old(self).wf(),
            old(page_table).wf(),
            old(frames).wf(),
            old(self).covers(addr as int),
            old(self).flags.spec_contains(flags),
            !old(self).resident(old(self).slot_of(addr as int)),
            old(frames).spec_single_frames() >= 1,
        ensures
            final(self).wf(),
            final(self).vaddr == old(self).vaddr,
            final(self).flags == old(self).flags,
            final(self).backend == old(self).backend,
            final(self).pages@.len() == old(self).pages@.len(),
            final(self).resident(old(self).slot_of(addr as int)),
            final(self).pages@[old(self).slot_of(addr as int)].unwrap().paddr() == old(
                frames,
            ).spec_next_page(),
            final(self).pages@[old(self).slot_of(addr as int)].unwrap().bytes() == old(
                self,
            ).fill_bytes(old(self).slot_of(addr as int), fs.files()),
            forall|j: int|
                0 <= j < old(self).pages@.len() && j != old(self).slot_of(addr as int)
                    ==> final(self).pages@[j] == old(self).pages@[j],
            final(page_table).wf(),
            final(page_table).root() == old(page_table).root(),
            final(page_table)@ == spec_fill(
                old(page_table)@,
                addr - addr % 4096,
                4096,
                Some(old(frames).spec_next_page()),
                old(self).flags,
            ),
            final(frames).wf(),
            old(frames).page_taken(*final(frames)),
            old(self).mapped_in(old(page_table)@) ==> final(self).mapped_in(final(page_table)@),
    {
        let page_index: usize = (addr - self.vaddr) / PAGE_SIZE_4K;
        let page_va: usize = memory_addr::align_down_4k(addr);
        assert(page_va == self.vaddr + page_index * 4096);
        let bytes = self.load_fill(page_index, fs);
        self.install_page(page_index, page_va, bytes.as_slice(), page_table, frames);
    }

    /// The addresses of the frames of the resident pages among the first
    /// `upto` slots, in the order of the slots.
    #[verifier::opaque]
    pub open spec fn spec_frames(&self, upto: int) -> Seq<usize>
        decreases upto,
    {
        if upto <= 0 {
            Seq::empty()
        } else if self.pages@[upto - 1].is_some() {
            self.spec_frames(upto - 1).push(self.pages@[upto - 1].unwrap().paddr())
        } else {
            self.spec_frames(upto - 1)
        }
    }

    /// Gives the frames of the resident pages back to the pool, in the order
    /// of the slots. What the pages hold is lost.
    pub fn release_pages(self, frames: &mut FrameAllocator)
        requires
            self.wf(),
            old(frames).wf(),
        ensures
            final(frames).wf(),
            final(frames).next_paddr() == old(frames).next_paddr(),
            final(frames).end_paddr() == old(frames).end_paddr(),
            final(frames).returned() == old(frames).returned() + self.spec_frames(
                self.pages@.len() as int,
            ),
    {
        let mut pages = self.pages;
        let n: usize = pages.len();
        let mut i: usize = 0;
        proof {
            reveal_with_fuel(MapArea::spec_frames, 1);
        }
        while i < n
            invariant
                i <= n,
                n == pages@.len(),
                n == self.pages@.len(),
                self.wf(),
                frames.wf(),
                frames.next_paddr() == old(frames).next_paddr(),
                frames.end_paddr() == old(frames).end_paddr(),
                frames.returned() == old(frames).returned() + self.spec_frames(i as int),
                forall|j: int| i <= j < n ==> #[trigger] pages@[j] == self.pages@[j],
            decreases n - i,
        {
            proof {
                reveal_with_fuel(MapArea::spec_frames, 2);
            }
            match pages[i].take() {
                Some(page) => {
                    frames.dealloc(page);
                    assert(frames.returned() =~= old(frames).returned() + self.spec_frames(i + 1));
                },
                None => {},
            }
            i += 1;
        }
    }

    /// The entries of `pt`, with the permissions of the resident pages of
    /// the region replaced by `flags`.
    pub open spec fn spec_protected(
        &self,
        pt: Map<usize, PageEntry>,
        flags: MappingFlags,
        upto: int,
    ) -> Map<usize, PageEntry> {
        Map::new(
            |va: usize| pt.contains_key(va),
            |va: usize|
                if page_in(va as int, self.vaddr as int, upto * 4096) && self.pages@[self.slot_of(
                    va as int,
                )].is_some() {
                    PageEntry::Mapped {
                        paddr: self.pages@[self.slot_of(va as int)].unwrap().paddr(),
                        flags,
                    }
                } else {
                    pt[va]
                },
        )
    }

    /// Changes the permissions of the region to `flags` and rewrites the
    /// entries of its resident pages.
    pub fn set_flags(&mut self, flags: MappingFlags, page_table: &mut PageTable)
        requires
            old(self).wf(),
            old(page_table).wf(),
            old(self).mapped_in(old(page_table)@),
        ensures
            final(self).wf(),
            final(self).vaddr == old(self).vaddr,
            final(self).flags == flags,
            final(self).backend == old(self).backend,
            final(self).pages@ == old(self).pages@,
            final(page_table).wf(),
            final(page_table).root() == old(page_table).root(),
            final(page_table)@ == old(self).spec_protected(
                old(page_table)@,
                flags,
                old(self).pages@.len() as int,
            ),
            final(self).mapped_in(final(page_table)@),
            same_outside(
                old(page_table)@,
                final(page_table)@,
                old(self).vaddr as int,
                old(self).spec_size(),
            ),
    {
        let mut q: usize = 0;
        assert(page_table@ =~= self.spec_protected(old(page_table)@, flags, 0));
        while q < self.pages.len()
            invariant
                q <= self.pages@.len(),
                *self == *old(self),
                self.wf(),
                self.mapped_in(old(page_table)@),
                page_table.wf(),
                page_table.root() == old(page_table).root(),
                page_table@ == self.spec_protected(old(page_table)@, flags, q as int),
            decreases self.pages@.len() - q,
        {
            let va: usize = self.vaddr + q * PAGE_SIZE_4K;
            assert(page_in(va as int, self.vaddr as int, self.spec_size()));
            assert(self.slot_of(va as int) == q);
            match &self.pages[q] {
                Some(page) => {
                    let mapped = page_table.map_overwrite(va, page.start_paddr(), PAGE_SIZE_4K, flags);
                    assert(mapped.is_ok());
                },
                None => {},
            }
            assert(page_table@ =~= self.spec_protected(old(page_table)@, flags, q + 1)) by {
                assert forall|x: usize| #[trigger] page_in(x as int, self.vaddr as int, (q + 1) * 4096)
                    && !page_in(x as int, self.vaddr as int, q * 4096) implies x == va by {}
                assert forall|x: usize| #[trigger] page_in(x as int, va as int, 4096) implies x == va by {}
            }
            q += 1;
        }
        self.flags = flags;
        proof {
            assert forall|x: usize| #[trigger]
                page_in(
                    x as int,
                    self.vaddr as int,
                    self.spec_size(),
                ) implies page_table@.contains_key(x) && page_table@[x] == self.spec_entry(
                self.slot_of(x as int),
            ) by {
                assert(page_in(x as int, old(self).vaddr as int, old(self).spec_size()));
            }
        }
    }

    /// Stores `byte` at offset `offset` of the region. The page must be resident.
    pub fn set_byte(&mut self, offset: usize, byte: u8)
        requires
            old(self).wf(),
            offset < old(self).spec_size(),
            old(self).resident(offset as int / 4096),
        ensures
            final(self).wf(),
            final(self).vaddr == old(self).vaddr,
            final(self).flags == old(self).flags,
            final(self).backend == old(self).backend,
            final(self).pages@.len() == old(self).pages@.len(),
            forall|i: int|
                0 <= i < old(self).pages@.len() ==> {
                    &&& (#[trigger] final(self).pages@[i]).is_some() == old(
                        self,
                    ).pages@[i].is_some()
                    &&& final(self).pages@[i].is_some() ==> final(self).pages@[i].unwrap().paddr()
                        == old(self).pages@[i].unwrap().paddr()
                },
            forall|k: int|
                0 <= k < old(self).spec_size() && old(self).resident(k / 4096)
                    ==> #[trigger] final(self).spec_byte(k) == (if k == offset {
                    byte
                } else {
                    old(self).spec_byte(k)
                }),
    {
        let idx: usize = offset / PAGE_SIZE_4K;
        let off: usize = offset % PAGE_SIZE_4K;
        match &mut self.pages[idx] {
            Some(p) => {
                p.set_byte(off, byte);
            },
            None => {},
        }
        assert forall|k: int|
            0 <= k < old(self).spec_size() && old(self).resident(
                k / 4096,
            ) implies #[trigger] self.spec_byte(k) == (if k == offset {
            byte
        } else {
            old(self).spec_byte(k)
        }) by {
            if k / 4096 == idx && k % 4096 == off {
                assert(k == offset);
            }
        }
    }

    /// The byte at offset `offset` of the region. The page must be resident.
    pub fn get_byte(&self, offset: usize) -> (byte: u8)
        requires
            self.wf(),
            offset < self.spec_size(),
            self.resident(offset as int / 4096),
        ensures
            byte == self.spec_byte(offset as int),
    {
        match &self.pages[offset / PAGE_SIZE_4K] {
            Some(p) => p.get_byte(offset % PAGE_SIZE_4K),
            None => 0u8,
        }
    }

    /// Number of filled slots among the first `upto`.
    pub open spec fn spec_resident_count(&self, upto: int) -> int
        decreases upto,
    {
        if upto <= 0 {
            0
        } else {
            self.spec_resident_count(upto - 1) + (if self.pages@[upto - 1].is_some() {
                1int
            } else {
                0int
            })
        }
    }

    /// Number of filled slots.
    pub fn resident_count(&self) -> (n: usize)
        ensures
            n == self.spec_resident_count(self.pages@.len() as int),
    {
        let mut n: usize = 0;
        let mut i: usize = 0;
        while i < self.pages.len()
            invariant
                i <= self.pages@.len(),
                n <= i,
                n == self.spec_resident_count(i as int),
            decreases self.pages@.len() - i,
        {
            if self.pages[i].is_some() {
                n += 1;
            }
            i += 1;
        }
        n
    }

    /// What the stored files hold once the page of slot `i` is written back:
    /// the page is stored in the backend's file at `4096 * i` past the cursor,
    /// where the slot is filled and the backend's file exists.
    pub open spec fn synced(&self, i: int, files: Seq<Seq<u8>>) -> Seq<Seq<u8>> {
        if self.pages@[i].is_some() && self.backend.is_some() && self.backend.unwrap().file
            < files.len() {
            let b = self.backend.unwrap();
            files.update(
                b.file as int,
                spec_write(files[b.file as int], b.cursor + i * 4096, self.pages@[i].unwrap().bytes()),
            )
        } else {
            files
        }
    }

    /// What the stored files hold once the filled slots below `upto` are
    /// written back in ascending order.
    pub open spec fn synced_upto(&self, upto: int, files: Seq<Seq<u8>>) -> Seq<Seq<u8>>
        decreases upto,
    {
        if upto <= 0 {
            files
        } else {
            self.synced(upto - 1, self.synced_upto(upto - 1, files))
        }
    }

    /// What the stored files hold once every filled slot is written back.
    pub open spec fn synced_all(&self, files: Seq<Seq<u8>>) -> Seq<Seq<u8>> {
        self.synced_upto(self.pages@.len() as int, files)
    }

    /// Writing pages back changes no file's number.
    pub proof fn lemma_synced_len(&self, upto: int, files: Seq<Seq<u8>>)
        ensures
            self.synced_upto(upto, files).len() == files.len(),
        decreases upto,
    {
        if upto > 0 {
            self.lemma_synced_len(upto - 1, files);
        }
    }

    /// Writes the page of slot `page_index` back to the file at
    /// `4096 * page_index` past the backend's cursor, where the slot is filled
    /// and there is a backend.
    pub fn sync_page_with_backend(&self, page_index: usize, fs: &mut FileSystem)
        requires
            self.wf(),
            page_index < self.pages@.len(),
            self.backed_by(old(fs).files().len() as int),
        ensures
            final(fs).open@ == old(fs).open@,
            final(fs).paths() == old(fs).paths(),
            final(fs).files() == self.synced(page_index as int, old(fs).files()),
    {
        match &self.pages[page_index] {
            Some(page) => {
                match &self.backend {
                    Some(backend) => {
                        let offset: usize = page_index * PAGE_SIZE_4K;
                        let written = backend.write_to_seek(
                            SeekFrom::Current(offset as i64),
                            page.as_slice(),
                            fs,
                        );
                        assert(written.is_ok());
                    },
                    None => {},
                }
            },
            None => {},
        }
    }

    /// Writes every filled slot back to the backend, in ascending order. This
    /// is what happens when the region is given up.
    pub fn sync_all(&self, fs: &mut FileSystem)
        requires
            self.wf(),
            self.backed_by(old(fs).files().len() as int),
        ensures
            final(fs).open@ == old(fs).open@,
            final(fs).paths() == old(fs).paths(),
            final(fs).files() == self.synced_all(old(fs).files()),
    {
        let mut i: usize = 0;
        while i < self.pages.len()
            invariant
                i <= self.pages@.len(),
                self.wf(),
                self.backed_by(old(fs).files().len() as int),
                fs.open@ == old(fs).open@,
                fs.paths() == old(fs).paths(),
                fs.files() == self.synced_upto(i as int, old(fs).files()),
            decreases self.pages@.len() - i,
        {
            proof {
                self.lemma_synced_len(i as int, old(fs).files());
            }
            self.sync_page_with_backend(i, fs);
            i += 1;
        }
    }

    /// Size of the region in bytes.
    pub fn size(&self) -> (n: usize)
        requires
            self.wf(),
        ensures
            n == self.spec_size(),
    {
        self.pages.len() * PAGE_SIZE_4K
    }

    /// The address just past the region.
    pub fn end_va(&self) -> (va: usize)
        requires
            self.wf(),
        ensures
            va == self.spec_end_va(),
    {
        self.vaddr + self.size()
    }

    /// The address at which the region starts.
    pub fn as_ptr(&self) -> (va: usize)
        ensures
            va == self.vaddr,
    {
        self.vaddr
    }

    /// The address at which the region starts.
    pub fn as_mut_ptr(&mut self) -> (va: usize)
        ensures
            va == old(self).vaddr,
            *final(self) == *old(self),
    {
        self.vaddr
    }

    /// Whether `[start, end)` overlaps the region.
    pub fn overlap_with(&self, start: usize, end: usize) -> (r: bool)
        requires
            self.wf(),
        ensures
            r == self.spec_overlap_with(start as int, end as int),
    {
        let area_end: usize = self.vaddr + self.size();
        self.vaddr <= start && start < area_end || start <= self.vaddr && self.vaddr < end
    }

    /// Whether the region lies within `[start, end)`.
    pub fn contained_in(&self, start: usize, end: usize) -> (r: bool)
        requires
            self.wf(),
        ensures
            r == self.spec_contained_in(start as int, end as int),
    {
        start <= self.vaddr && self.vaddr + self.size() <= end
    }

    /// Whether `[start, end)` lies within the region.
    pub fn contains(&self, start: usize, end: usize) -> (r: bool)
        requires
            self.wf(),
        ensures
            r == self.spec_contains(start as int, end as int),
    {
        self.vaddr <= start && end <= self.vaddr + self.size()
    }

    /// Sets every byte of the region to `byte`. Every page must be resident.
    pub fn fill(&mut self, byte: u8)
        requires
            old(self).wf(),
            old(self).all_resident(),
        ensures
            final(self).wf(),
            final(self).all_resident(),
            final(self).vaddr == old(self).vaddr,
            final(self).flags == old(self).flags,
            final(self).backend == old(self).backend,
            final(self).pages@.len() == old(self).pages@.len(),
            forall|i: int|
                0 <= i < old(self).pages@.len() ==> {
                    &&& (#[trigger] final(self).pages@[i]).unwrap().paddr() == old(
                        self,
                    ).pages@[i].unwrap().paddr()
                    &&& final(self).pages@[i].unwrap().bytes() == Seq::new(4096, |k: int| byte)
                },
    {
        let mut i: usize = 0;
        while i < self.pages.len()
            invariant
                i <= self.pages@.len(),
                self.wf(),
                self.all_resident(),
                self.vaddr == old(self).vaddr,
                self.flags == old(self).flags,
                self.backend == old(self).backend,
                self.pages@.len() == old(self).pages@.len(),
                forall|j: int|
                    0 <= j < self.pages@.len() ==> (#[trigger] self.pages@[j]).unwrap().paddr()
                        == old(self).pages@[j].unwrap().paddr(),
                forall|j: int|
                    0 <= j < i ==> (#[trigger] self.pages@[j]).unwrap().bytes() == Seq::new(
                        4096,
                        |k: int| byte,
                    ),
            decreases self.pages@.len() - i,
        {
            assert(self.pages@[i as int].is_some());
            match &mut self.pages[i] {
                Some(p) => {
                    p.fill(byte);
                },
                None => {},
            }
            i += 1;
        }
    }

    /// Every page that holds a byte of `[offset, offset + len)` is resident.
    pub open spec fn range_resident(&self, offset: int, len: int) -> bool {
        forall|k: int| offset <= k < offset + len ==> #[trigger] self.resident(k / 4096)
    }

    /// Stores `data` in the region, starting at byte `offset`. The pages that
    /// are written must be resident.
    pub fn write_bytes(&mut self, offset: usize, data: &[u8])
        requires
            old(self).wf(),
            offset + data@.len() <= old(self).spec_size(),
            old(self).range_resident(offset as int, data@.len() as int),
        ensures
            final(self).wf(),
            final(self).vaddr == old(self).vaddr,
            final(self).flags == old(self).flags,
            final(self).backend == old(self).backend,
            final(self).pages@.len() == old(self).pages@.len(),
            forall|i: int|
                0 <= i < old(self).pages@.len() ==> {
                    &&& (#[trigger] final(self).pages@[i]).is_some() == old(
                        self,
                    ).pages@[i].is_some()
                    &&& final(self).pages@[i].is_some() ==> final(self).pages@[i].unwrap().paddr()
                        == old(self).pages@[i].unwrap().paddr()
                },
            forall|k: int|
                0 <= k < old(self).spec_size() && old(self).resident(k / 4096)
                    ==> #[trigger] final(self).spec_byte(k) == (if offset <= k < offset
                    + data@.len() {
                    data@[k - offset]
                } else {
                    old(self).spec_byte(k)
                }),
    {
        let mut j: usize = 0;
        while j < data.len()
            invariant
                j <= data@.len(),
                self.wf(),
                offset + data@.len() <= old(self).spec_size(),
                old(self).range_resident(offset as int, data@.len() as int),
                self.vaddr == old(self).vaddr,
                self.flags == old(self).flags,
                self.backend == old(self).backend,
                self.pages@.len() == old(self).pages@.len(),
                forall|i: int|
                    0 <= i < old(self).pages@.len() ==> {
                        &&& (#[trigger] self.pages@[i]).is_some() == old(self).pages@[i].is_some()
                        &&& self.pages@[i].is_some() ==> self.pages@[i].unwrap().paddr() == old(
                            self,
                        ).pages@[i].unwrap().paddr()
                    },
                forall|k: int|
                    0 <= k < old(self).spec_size() && old(self).resident(k / 4096)
                        ==> #[trigger] self.spec_byte(k) == (if offset <= k < offset + j {
                        data@[k - offset]
                    } else {
                        old(self).spec_byte(k)
                    }),
            decreases data@.len() - j,
        {
            let at: usize = offset + j;
            let idx: usize = at / PAGE_SIZE_4K;
            let off: usize = at % PAGE_SIZE_4K;
            assert(old(self).resident(at as int / 4096));
            let ghost before = *self;
            match &mut self.pages[idx] {
                Some(p) => {
                    p.set_byte(off, data[j]);
                },
                None => {},
            }
            assert forall|k: int|
                0 <= k < old(self).spec_size() && old(self).resident(
                    k / 4096,
                ) implies #[trigger] self.spec_byte(k) == (if offset <= k < offset + j + 1 {
                data@[k - offset]
            } else {
                old(self).spec_byte(k)
            }) by {
                assert(before.spec_byte(k) == (if offset <= k < offset + j {
                    data@[k - offset]
                } else {
                    old(self).spec_byte(k)
                }));
                if k / 4096 == idx {
                    if k % 4096 == off {
                        assert(k == at);
                    }
                }
            }
            j += 1;
        }
    }

    /// A copy of `len` bytes of the region, starting at byte `offset`. The
    /// pages that are read must be resident.
    pub fn read_bytes(&self, offset: usize, len: usize) -> (out: Vec<u8>)
        requires
            self.wf(),
            offset + len <= self.spec_size(),
            self.range_resident(offset as int, len as int),
        ensures
            out@.len() == len,
            forall|j: int| 0 <= j < len ==> #[trigger] out@[j] == self.spec_byte(offset + j),
    {
        let mut out: Vec<u8> = Vec::new();
        let mut j: usize = 0;
        while j < len
            invariant
                j <= len,
                self.wf(),
                offset + len <= self.spec_size(),
                self.range_resident(offset as int, len as int),
                out@.len() == j,
                forall|i: int| 0 <= i < j ==> #[trigger] out@[i] == self.spec_byte(offset + i),
            decreases len - j,
        {
            let at: usize = offset + j;
            let idx: usize = at / PAGE_SIZE_4K;
            let off: usize = at % PAGE_SIZE_4K;
            assert(self.resident(at as int / 4096));
            let b: u8 = match &self.pages[idx] {
                Some(p) => p.get_byte(off),
                None => 0u8,
            };
            out.push(b);
            j += 1;
        }
        out
    }

    /// What the first access brings into the page of slot `page_index`.
    pub fn load_fill(&self, page_index: usize, fs: &FileSystem) -> (out: Vec<u8>)
        requires
            self.wf(),
            page_index < self.pages@.len(),
        ensures
            out@ == self.fill_bytes(page_index as int, fs.files()),
            out@.len() == 4096,
    {
        let mut out: Vec<u8> = match &self.backend {
            Some(backend) => {
                let offset: usize = page_index * PAGE_SIZE_4K;
                match backend.read_from_seek(SeekFrom::Current(offset as i64), PAGE_SIZE_4K, fs) {
                    Ok(bytes) => bytes,
                    Err(_) => Vec::new(),
                }
            },
            None => Vec::new(),
        };
        let ghost head = out@;
        while out.len() < PAGE_SIZE_4K
            invariant
                head.len() <= out@.len() <= 4096,
                out@ =~= head + zeros((out@.len() - head.len()) as nat),
            decreases 4096 - out@.len(),
        {
            out.push(0u8);
        }
        assert(out@ =~= head + zeros((4096 - head.len()) as nat));
        assert(head.len() == 0 ==> out@ =~= zeros(4096));
        out
    }

    /// A copy of the bytes that a read of the whole region observes: the
    /// bytes of each resident page, and for each other page what its first
    /// access would bring in.
    pub fn as_slice(&self, fs: &FileSystem) -> (out: Vec<u8>)
        requires
            self.wf(),
        ensures
            out@ == self.spec_bytes(fs.files()),
    {
        let mut out: Vec<u8> = Vec::new();
        let mut i: usize = 0;
        while i < self.pages.len()
            invariant
                i <= self.pages@.len(),
                self.wf(),
                out@.len() == i * 4096,
                forall|k: int|
                    0 <= k < i * 4096 ==> #[trigger] out@[k] == self.page_bytes(
                        k / 4096,
                        fs.files(),
                    )[k % 4096],
            decreases self.pages@.len() - i,
        {
            let ghost before = out@;
            match &self.pages[i] {
                Some(p) => {
                    out.extend_from_slice(p.as_slice());
                },
                None => {
                    let bytes = self.load_fill(i, fs);
                    out.extend_from_slice(bytes.as_slice());
                },
            }
            assert(out@ == before + self.page_bytes(i as int, fs.files()));
            assert forall|k: int| 0 <= k < (i + 1) * 4096 implies #[trigger] out@[k]
                == self.page_bytes(k / 4096, fs.files())[k % 4096] by {
                if k >= i * 4096 {
                    assert(k / 4096 == i);
                    assert(k % 4096 == k - i * 4096);
                }
            }
            i += 1;
        }
        assert(out@ =~= self.spec_bytes(fs.files()));
        out
    }
}

} // verus!
