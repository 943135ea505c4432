//! Loading a parsed ELF image into an address space.

use crate::addr::{spec_pages_for, PAGE_SIZE_4K};
use crate::area::MapArea;
use crate::flags::MappingFlags;
use crate::frame::FrameAllocator;
use crate::memory_set::{
    area_apart, is_loaded_region, lemma_find, range_free, same_shape, MemRegion, MemorySet,
};
use std::collections::BTreeMap;
use vstd::bytes::{spec_u64_to_le_bytes, u64_to_le_bytes};
use vstd::prelude::*;

verus! {

broadcast use vstd::std_specs::btree::group_btree_axioms;

/// Relocation type: the address of a symbol, for the global offset table.
pub const REL_GOT: u32 = 6;

/// Relocation type: the address of a symbol, for the linkage table.
pub const REL_PLT: u32 = 7;

/// Relocation type: the base plus the addend.
pub const REL_RELATIVE: u32 = 8;

/// Relocation type: the address of a symbol plus the addend.
pub const R_RISCV_64: u32 = 2;

/// Relocation type: the base plus the addend.
pub const R_RISCV_RELATIVE: u32 = 3;

/// Relocation type of `.rela.plt`: the address of a symbol.
pub const R_RISCV_JUMP_SLOT: u32 = 5;

/// Auxiliary vector: the address of the program headers.
pub const AT_PHDR: u8 = 3;

/// Auxiliary vector: the size of a program header.
pub const AT_PHENT: u8 = 4;

/// Auxiliary vector: the number of program headers.
pub const AT_PHNUM: u8 = 5;

/// Auxiliary vector: the page size.
pub const AT_PAGESZ: u8 = 6;

/// Auxiliary vector: the address of sixteen random bytes.
pub const AT_RANDOM: u8 = 25;

/// Where an image is loaded whose first bytes are to lie at address 0.
pub const ELF_BASE: usize = 0x400_0000;

/// The kinds of segment that the loader tells apart.
#[derive(Clone, Copy, Debug, PartialEq, Eq, Structural)]
pub enum SegmentType {
    Load,
    Interp,
    Other,
}

/// One program header of the image.
#[derive(Clone, Copy, Debug, PartialEq, Eq, Structural)]
pub struct ProgramHeader {
    pub kind: SegmentType,
    pub vaddr: u64,
    pub mem_size: u64,
    pub offset: u64,
    pub file_size: u64,
    pub read: bool,
    pub write: bool,
    pub execute: bool,
}

/// One relocation entry with addend.
#[derive(Clone, Copy, Debug, PartialEq, Eq, Structural)]
pub struct RelaEntry {
    pub offset: u64,
    pub addend: u64,
    pub symbol: u32,
    pub kind: u32,
}

/// One entry of the dynamic symbol table.
#[derive(Clone, Copy, Debug, PartialEq, Eq, Structural)]
pub struct DynSymbol {
    pub shndx: u16,
    pub value: u64,
}

/// A parsed ELF image: the bytes of the file and what the loader reads of
/// its headers and sections.
pub struct ElfImage {
    pub input: Vec<u8>,
    pub entry: u64,
    pub ph_offset: u64,
    pub ph_entry_size: u16,
    pub ph_count: u16,
    pub segments: Vec<ProgramHeader>,
    pub rela_dyn: Option<Vec<RelaEntry>>,
    pub rela_plt: Option<Vec<RelaEntry>>,
    pub dynsym: Option<Vec<DynSymbol>>,
}

impl ProgramHeader {
    /// Whether the segment is one that is loaded.
    pub open spec fn is_load(&self) -> bool {
        self.kind == SegmentType::Load
    }

    /// Distance of the segment's first byte from the page boundary below it.
    pub open spec fn pad(&self, base: int) -> int {
        (self.vaddr + base) % 4096
    }

    /// Where the area of the segment starts: its first byte, rounded down to
    /// a page boundary.
    #[verifier::opaque]
    pub open spec fn lo(&self, base: int) -> int {
        self.vaddr + base - self.pad(base)
    }

    /// Number of bytes from the start of the area to the end of the segment.
    pub open spec fn span(&self, base: int) -> int {
        self.mem_size + self.pad(base)
    }

    /// Number of pages of the area of the segment.
    #[verifier::opaque]
    pub open spec fn pages(&self, base: int) -> int {
        spec_pages_for(self.span(base))
    }

    /// Where the area of the segment ends.
    #[verifier::opaque]
    pub open spec fn hi(&self, base: int) -> int {
        self.lo(base) + self.pages(base) * 4096
    }

    /// The permissions of the area of the segment.
    pub open spec fn spec_flags(&self) -> MappingFlags {
        MappingFlags { read: self.read, write: self.write, execute: self.execute, user: true }
    }

    /// The bytes of the file that are copied to the start of the area.
    pub open spec fn data(&self, base: int, input: Seq<u8>) -> Seq<u8> {
        input.subrange(self.offset - self.pad(base), self.offset + self.file_size)
    }

    /// The segment can be loaded: it lies in the address space, its first
    /// byte is as far from a page boundary in memory as in the file, its
    /// bytes lie in the file and fit in its area, and the area is not empty.
    #[verifier::opaque]
    pub open spec fn ok(&self, base: int, input_len: int) -> bool {
        &&& self.vaddr + self.mem_size + base <= usize::MAX
        &&& self.hi(base) <= usize::MAX
        &&& self.pages(base) * 4096 <= i64::MAX
        &&& self.offset + self.file_size <= input_len
        &&& self.pad(base) == self.offset % 4096
        &&& self.span(base) > 0
        &&& self.file_size + self.pad(base) <= self.pages(base) * 4096
    }

    /// The permissions of the area of the segment.
    pub fn flags(&self) -> (f: MappingFlags)
        ensures
            f == self.spec_flags(),
    {
        MappingFlags::user_rwx(self.read, self.write, self.execute)
    }
}

/// Number of LOAD segments among the first `upto`.
pub open spec fn load_count(segs: Seq<ProgramHeader>, upto: int) -> int
    decreases upto,
{
    if upto <= 0 {
        0
    } else {
        load_count(segs, upto - 1) + (if segs[upto - 1].is_load() {
            1int
        } else {
            0int
        })
    }
}

/// Number of pages in the areas of the LOAD segments among the first `upto`.
pub open spec fn load_pages(segs: Seq<ProgramHeader>, base: int, upto: int) -> int
    decreases upto,
{
    if upto <= 0 {
        0
    } else {
        load_pages(segs, base, upto - 1) + (if segs[upto - 1].is_load() {
            segs[upto - 1].pages(base)
        } else {
            0int
        })
    }
}

/// The counts of loaded segments and pages are not negative and grow.
pub proof fn lemma_load_counts(segs: Seq<ProgramHeader>, base: int, lo: int, hi: int)
    requires
        0 <= lo <= hi <= segs.len(),
        0 <= base,
    ensures
        0 <= load_count(segs, lo) <= load_count(segs, hi),
        0 <= load_pages(segs, base, lo) <= load_pages(segs, base, hi),
    decreases hi,
{
    reveal(ProgramHeader::pages);
    if hi > 0 {
        if lo < hi {
            lemma_load_counts(segs, base, lo, hi - 1);
        } else {
            lemma_load_counts(segs, base, lo - 1, hi - 1);
        }
    }
}

/// Every index below the number of LOAD segments among the first `upto` is
/// the number of LOAD segments before one of them.
pub proof fn lemma_loaded_index(segs: Seq<ProgramHeader>, upto: int, i: int)
    requires
        0 <= upto <= segs.len(),
        0 <= i < load_count(segs, upto),
    ensures
        exists|j: int| 0 <= j < upto && segs[j].is_load() && load_count(segs, j) == i,
    decreases upto,
{
    if upto > 0 {
        if segs[upto - 1].is_load() && load_count(segs, upto - 1) == i {
            assert(0 <= upto - 1 < upto && segs[upto - 1].is_load() && load_count(segs, upto - 1) == i);
        } else {
            lemma_loaded_index(segs, upto - 1, i);
            let j = choose|j: int| 0 <= j < upto - 1 && segs[j].is_load() && load_count(segs, j) == i;
            assert(0 <= j < upto && segs[j].is_load() && load_count(segs, j) == i);
        }
    }
}

/// The LOAD segments can all be loaded: each is acceptable and lies apart
/// from what is mapped, no two of their areas overlap, and there are frames
/// for all their pages.
#[verifier::opaque]
pub open spec fn segments_loadable(
    areas: Seq<MapArea>,
    kernel: Seq<MemRegion>,
    segs: Seq<ProgramHeader>,
    base: int,
    input_len: int,
    free_frames: int,
) -> bool {
    &&& forall|k: int|
        0 <= k < segs.len() && (#[trigger] segs[k]).is_load() ==> segs[k].ok(base, input_len)
            && range_free(areas, kernel, segs[k].lo(base), segs[k].hi(base))
    &&& forall|j: int, k: int|
        0 <= j < k < segs.len() && (#[trigger] segs[j]).is_load() && (#[trigger] segs[k]).is_load()
            ==> segs[j].hi(base) <= segs[k].lo(base) || segs[k].hi(base) <= segs[j].lo(base)
    &&& load_pages(segs, base, segs.len() as int) <= free_frames
}

/// The base address of an image: `ELF_BASE` where some LOAD segment puts
/// the first byte of the file at address 0, else 0.
pub open spec fn spec_base(segs: Seq<ProgramHeader>, upto: int) -> usize
    decreases upto,
{
    if upto <= 0 {
        0
    } else if segs[upto - 1].is_load() && segs[upto - 1].offset == 0 && segs[upto - 1].vaddr == 0 {
        ELF_BASE
    } else {
        spec_base(segs, upto - 1)
    }
}

/// The address, before the base is added, at which the first LOAD segment
/// that starts at offset 0 of the file puts the file header; 0 where there
/// is no such segment.
pub open spec fn spec_header_vaddr(segs: Seq<ProgramHeader>, from: int) -> u64
    decreases segs.len() - from,
{
    if from < 0 || from >= segs.len() {
        0
    } else if segs[from].is_load() && segs[from].offset == 0 {
        segs[from].vaddr
    } else {
        spec_header_vaddr(segs, from + 1)
    }
}

/// A memory: what a read of each address observes, if anything.
pub type Memory = spec_fn(int) -> Option<u8>;

/// The memory that reads of the address space observe.
pub open spec fn mem_of(ms: MemorySet) -> Memory {
    |x: int| ms.spec_byte_at(x)
}

/// The memory `mem` after `bytes` have been stored from `addr` on.
pub open spec fn spec_store(mem: Memory, addr: int, bytes: Seq<u8>) -> Memory {
    |x: int|
        if addr <= x < addr + bytes.len() {
            Some(bytes[x - addr])
        } else {
            mem(x)
        }
}

/// The value that a relocation entry stores. The address of a symbol is its
/// value in the image moved by the base at which the image is loaded. In
/// `.rela.plt` an entry of type 5 stores the address of its symbol. In
/// `.rela.dyn` an entry of type 6, 7 or 2 stores the address of its symbol
/// plus the addend, one of type 8 or 3 the base plus the addend. Sums wrap at
/// 64 bits. There is no value where the type is another one, or the symbol
/// does not exist or is undefined.
pub open spec fn reloc_value(e: RelaEntry, syms: Seq<DynSymbol>, base: u64, plt: bool) -> Option<u64> {
    if plt {
        if e.kind == R_RISCV_JUMP_SLOT && e.symbol < syms.len() && syms[e.symbol as int].shndx != 0 {
            Some(base.wrapping_add(syms[e.symbol as int].value))
        } else {
            None
        }
    } else if e.kind == REL_GOT || e.kind == REL_PLT || e.kind == R_RISCV_64 {
        if e.symbol < syms.len() && syms[e.symbol as int].shndx != 0 {
            Some(base.wrapping_add(syms[e.symbol as int].value).wrapping_add(e.addend))
        } else {
            None
        }
    } else if e.kind == REL_RELATIVE || e.kind == R_RISCV_RELATIVE {
        Some(base.wrapping_add(e.addend))
    } else {
        None
    }
}

/// The memory `mem` after the first `upto` entries have been applied in
/// order: each stores its value, as eight bytes with the lowest first, at the
/// base plus its offset.
pub open spec fn reloc_fold(
    entries: Seq<RelaEntry>,
    syms: Seq<DynSymbol>,
    base: u64,
    plt: bool,
    upto: int,
    mem: Memory,
) -> Memory
    decreases upto,
{
    if upto <= 0 {
        mem
    } else {
        spec_store(
            reloc_fold(entries, syms, base, plt, upto - 1, mem),
            base + entries[upto - 1].offset,
            spec_u64_to_le_bytes(reloc_value(entries[upto - 1], syms, base, plt).unwrap()),
        )
    }
}

/// Every entry can be applied: it has a value, and the eight bytes at its
/// target lie in resident pages.
pub open spec fn relocs_ok(
    ms: MemorySet,
    entries: Seq<RelaEntry>,
    syms: Seq<DynSymbol>,
    base: u64,
    plt: bool,
) -> bool {
    forall|k: int|
        0 <= k < entries.len() ==> reloc_value(#[trigger] entries[k], syms, base, plt).is_some()
            && base + entries[k].offset + 8 <= usize::MAX && ms.spec_range_resident(
            base + entries[k].offset,
            8,
        )
}

/// The value that a relocation entry stores.
pub fn compute_reloc(e: &RelaEntry, syms: &[DynSymbol], base: u64, plt: bool) -> (r: Option<u64>)
    ensures
        r == reloc_value(*e, syms@, base, plt),
{
    if plt {
        if e.kind == R_RISCV_JUMP_SLOT && (e.symbol as usize) < syms.len() && syms[e.symbol as usize].shndx
            != 0 {
            Some(base.wrapping_add(syms[e.symbol as usize].value))
        } else {
            None
        }
    } else if e.kind == REL_GOT || e.kind == REL_PLT || e.kind == R_RISCV_64 {
        if (e.symbol as usize) < syms.len() && syms[e.symbol as usize].shndx != 0 {
            Some(base.wrapping_add(syms[e.symbol as usize].value).wrapping_add(e.addend))
        } else {
            None
        }
    } else if e.kind == REL_RELATIVE || e.kind == R_RISCV_RELATIVE {
        Some(base.wrapping_add(e.addend))
    } else {
        None
    }
}

impl ElfImage {
    /// Whether the file starts with the four bytes that mark an ELF image.
    pub open spec fn spec_magic_ok(&self) -> bool {
        &&& self.input@.len() >= 4
        &&& self.input@[0] == 0x7f
        &&& self.input@[1] == 0x45
        &&& self.input@[2] == 0x4c
        &&& self.input@[3] == 0x46
    }

    /// Whether the file starts with the four bytes that mark an ELF image.
    pub fn magic_ok(&self) -> (r: bool)
        ensures
            r == self.spec_magic_ok(),
    {
        self.input.len() >= 4 && self.input[0] == 0x7f && self.input[1] == 0x45 && self.input[2]
            == 0x4c && self.input[3] == 0x46
    }

    /// The base address at which the image is loaded.
    pub fn base_addr(&self) -> (base: usize)
        ensures
            base == spec_base(self.segments@, self.segments@.len() as int),
            base == 0 || base == ELF_BASE,
    {
        let mut base: usize = 0;
        let mut k: usize = 0;
        while k < self.segments.len()
            invariant
                k <= self.segments@.len(),
                base == spec_base(self.segments@, k as int),
                base == 0 || base == ELF_BASE,
            decreases self.segments@.len() - k,
        {
            let ph = &self.segments[k];
            if ph.kind == SegmentType::Load && ph.offset == 0 && ph.vaddr == 0 {
                base = ELF_BASE;
            }
            k += 1;
        }
        base
    }

    /// The address, before the base is added, at which the file header lies
    /// in memory; 0 where no LOAD segment starts at offset 0 of the file.
    pub fn header_vaddr(&self) -> (va: u64)
        ensures
            va == spec_header_vaddr(self.segments@, 0),
    {
        let mut k: usize = 0;
        while k < self.segments.len()
            invariant
                k <= self.segments@.len(),
                spec_header_vaddr(self.segments@, 0) == spec_header_vaddr(self.segments@, k as int),
            decreases self.segments@.len() - k,
        {
            let ph = &self.segments[k];
            if ph.kind == SegmentType::Load && ph.offset == 0 {
                return ph.vaddr;
            }
            k += 1;
        }
        0
    }
}

/// The state of loading after the first `upto` segments: the areas that were
/// there before are unchanged, and after them comes the area of each LOAD
/// segment among the first `upto`, in order.
#[verifier::opaque]
pub open spec fn loaded_upto(
    olds: Seq<MapArea>,
    cur: Seq<MapArea>,
    segs: Seq<ProgramHeader>,
    b: int,
    input: Seq<u8>,
    f0: int,
    upto: int,
) -> bool {
    &&& cur.len() == olds.len() + load_count(segs, upto)
    &&& forall|i: int| 0 <= i < olds.len() ==> #[trigger] cur[i] == olds[i]
    &&& forall|j: int|
        0 <= j < upto && (#[trigger] segs[j]).is_load() ==> {
            &&& segment_loaded(
                cur[olds.len() + load_count(segs, j)],
                segs[j],
                b,
                input,
                f0 + 4096 * load_pages(segs, b, j),
            )
            &&& cur[olds.len() + load_count(segs, j)].vaddr == segs[j].lo(b)
            &&& cur[olds.len() + load_count(segs, j)].spec_end_va() == segs[j].hi(b)
        }
}

/// The area of the next LOAD segment lies apart from all areas: from those
/// that were there before loading began, and from those of the segments
/// loaded so far.
pub proof fn lemma_next_segment_free(
    olds: Seq<MapArea>,
    kernel: Seq<MemRegion>,
    cur: Seq<MapArea>,
    segs: Seq<ProgramHeader>,
    b: int,
    input: Seq<u8>,
    f0: int,
    free0: int,
    k: int,
)
    requires
        0 <= b,
        0 <= k < segs.len(),
        segs[k].is_load(),
        segments_loadable(olds, kernel, segs, b, input.len() as int, free0),
        loaded_upto(olds, cur, segs, b, input, f0, k),
    ensures
        range_free(cur, kernel, segs[k].lo(b), segs[k].hi(b)),
        segs[k].ok(b, input.len() as int),
        load_pages(segs, b, k) + segs[k].pages(b) <= free0,
        0 <= load_pages(segs, b, k),
        0 <= segs[k].pages(b),
{
    reveal(segments_loadable);
    reveal(loaded_upto);
    let n0 = olds.len() as int;
    let lo = segs[k].lo(b);
    let hi = segs[k].hi(b);
    lemma_load_counts(segs, b, k + 1, segs.len() as int);
    lemma_load_counts(segs, b, 0, k);
    lemma_load_counts(segs, b, k, k + 1);
    assert(range_free(olds, kernel, lo, hi));
    assert forall|i: int| 0 <= i < cur.len() implies area_apart(#[trigger] cur[i], lo, hi) by {
        if i < n0 {
            assert(cur[i] == olds[i]);
        } else {
            lemma_loaded_index(segs, k, i - n0);
            let j = choose|j: int| 0 <= j < k && segs[j].is_load() && load_count(segs, j) == i - n0;
            assert(segs[j].is_load());
            assert(cur[n0 + load_count(segs, j)].vaddr == segs[j].lo(b));
        }
    }
}

/// Loading begins with the areas as they are.
pub proof fn lemma_loaded_start(
    olds: Seq<MapArea>,
    segs: Seq<ProgramHeader>,
    b: int,
    input: Seq<u8>,
    f0: int,
)
    ensures
        loaded_upto(olds, olds, segs, b, input, f0, 0),
{
    reveal(loaded_upto);
}

/// One step of loading, over a LOAD segment whose area has been appended.
pub proof fn lemma_loaded_step(
    olds: Seq<MapArea>,
    cur: Seq<MapArea>,
    news: Seq<MapArea>,
    segs: Seq<ProgramHeader>,
    b: int,
    input: Seq<u8>,
    f0: int,
    k: int,
)
    requires
        0 <= b,
        0 <= k < segs.len(),
        segs[k].is_load(),
        loaded_upto(olds, cur, segs, b, input, f0, k),
        news.len() == cur.len() + 1,
        forall|i: int| 0 <= i < cur.len() ==> #[trigger] news[i] == cur[i],
        segment_loaded(news.last(), segs[k], b, input, f0 + 4096 * load_pages(segs, b, k)),
        news.last().vaddr == segs[k].lo(b),
        news.last().spec_end_va() == segs[k].hi(b),
    ensures
        loaded_upto(olds, news, segs, b, input, f0, k + 1),
        load_pages(segs, b, k + 1) == load_pages(segs, b, k) + segs[k].pages(b),
{
    reveal(loaded_upto);
    let n0 = olds.len() as int;
    lemma_load_counts(segs, b, 0, k);
    assert forall|i: int| 0 <= i < n0 implies #[trigger] news[i] == olds[i] by {
        assert(news[i] == cur[i]);
    }
    assert forall|j: int| 0 <= j < k + 1 && (#[trigger] segs[j]).is_load() implies {
        &&& segment_loaded(
            news[n0 + load_count(segs, j)],
            segs[j],
            b,
            input,
            f0 + 4096 * load_pages(segs, b, j),
        )
        &&& news[n0 + load_count(segs, j)].vaddr == segs[j].lo(b)
        &&& news[n0 + load_count(segs, j)].spec_end_va() == segs[j].hi(b)
    } by {
        if j < k {
            lemma_load_counts(segs, b, j + 1, k);
            lemma_load_counts(segs, b, j, j + 1);
            lemma_load_counts(segs, b, 0, j);
            assert(news[n0 + load_count(segs, j)] == cur[n0 + load_count(segs, j)]);
        } else {
            assert(news[n0 + load_count(segs, j)] == news.last());
        }
    }
}

/// One step of loading, over a segment that is not loaded.
pub proof fn lemma_loaded_skip(
    olds: Seq<MapArea>,
    cur: Seq<MapArea>,
    segs: Seq<ProgramHeader>,
    b: int,
    input: Seq<u8>,
    f0: int,
    k: int,
)
    requires
        0 <= k < segs.len(),
        !segs[k].is_load(),
        loaded_upto(olds, cur, segs, b, input, f0, k),
    ensures
        loaded_upto(olds, cur, segs, b, input, f0, k + 1),
        load_pages(segs, b, k + 1) == load_pages(segs, b, k),
{
    reveal(loaded_upto);
}

/// `a` is the area of the LOAD segment `ph`: it starts at the page boundary
/// at or below the segment, has the permissions of the segment and no
/// backend, its pages are resident in consecutive frames from `paddr` on, and
/// it holds the bytes of the segment from the file, padded in front to the
/// page boundary with the bytes that precede them in the file, and zeros
/// after them.
#[verifier::opaque]
pub open spec fn segment_loaded(
    a: MapArea,
    ph: ProgramHeader,
    base: int,
    input: Seq<u8>,
    paddr: int,
) -> bool {
    is_loaded_region(
        a,
        ph.lo(base),
        ph.pages(base),
        ph.spec_flags(),
        None,
        ph.data(base, input),
        paddr,
    )
}

impl MemorySet {
    /// Creates the area of one LOAD segment.
    pub fn load_segment(
        &mut self,
        ph: &ProgramHeader,
        input: &[u8],
        base: usize,
        frames: &mut FrameAllocator,
    )
        requires
            old(self).wf(),
            old(frames).wf(),
            ph.ok(base as int, input@.len() as int),
            old(self).spec_range_free(ph.lo(base as int), ph.hi(base as int)),
            old(frames).spec_free_frames() >= ph.pages(base as int),
        ensures
            final(self).wf(),
            final(self).kernel_regions() == old(self).kernel_regions(),
            final(self).spec_entry() == old(self).spec_entry(),
            final(self).spec_page_table().root() == old(self).spec_page_table().root(),
            final(self).areas().len() == old(self).areas().len() + 1,
            forall|i: int|
                0 <= i < old(self).areas().len() ==> #[trigger] final(self).areas()[i] == old(
                    self,
                ).areas()[i],
            segment_loaded(
                final(self).areas().last(),
                *ph,
                base as int,
                input@,
                old(frames).next_paddr() as int,
            ),
            final(self).areas().last().vaddr == ph.lo(base as int),
            final(self).areas().last().spec_end_va() == ph.hi(base as int),
            final(frames).wf(),
            final(frames).end_paddr() == old(frames).end_paddr(),
            final(frames).returned() == old(frames).returned(),
            final(frames).next_paddr() == old(frames).next_paddr() + 4096 * ph.pages(base as int),
    {
        proof {
            reveal(ProgramHeader::ok);
            reveal(ProgramHeader::lo);
            reveal(ProgramHeader::hi);
            reveal(ProgramHeader::pages);
        }
        let input_len: usize = input.len();
        let start_va: usize = ph.vaddr as usize + base;
        let end_va: usize = (ph.vaddr + ph.mem_size) as usize + base;
        let end_offset: usize = (ph.offset + ph.file_size) as usize;
        let pad: usize = start_va % PAGE_SIZE_4K;
        let lo: usize = start_va - pad;
        assert(pad == ph.offset % 4096);
        let data_lo: usize = ph.offset as usize - pad;
        let data = vstd::slice::slice_subrange(input, data_lo, end_offset);
        let flags = ph.flags();
        assert(end_va - lo == ph.span(base as int));
        self.new_region(lo, end_va - lo, flags, Some(data), None, frames);
        proof {
            reveal(segment_loaded);
        }
    }

    /// Creates one area for each LOAD segment of the image, in order: fresh
    /// pages that hold the bytes of the segment from the file, padded in
    /// front to the page boundary with the bytes that precede them in the
    /// file, and zeros after them.
    pub fn load_segments(&mut self, elf: &ElfImage, base: usize, frames: &mut FrameAllocator)
        requires
            old(self).wf(),
            old(frames).wf(),
            segments_loadable(
                old(self).areas(),
                old(self).kernel_regions(),
                elf.segments@,
                base as int,
                elf.input@.len() as int,
                old(frames).spec_free_frames() as int,
            ),
        ensures
            final(self).wf(),
            final(self).kernel_regions() == old(self).kernel_regions(),
            final(self).spec_entry() == old(self).spec_entry(),
            final(self).spec_page_table().root() == old(self).spec_page_table().root(),
            loaded_upto(
                old(self).areas(),
                final(self).areas(),
                elf.segments@,
                base as int,
                elf.input@,
                old(frames).next_paddr() as int,
                elf.segments@.len() as int,
            ),
            final(frames).wf(),
            final(frames).end_paddr() == old(frames).end_paddr(),
            final(frames).returned() == old(frames).returned(),
            final(frames).next_paddr() == old(frames).next_paddr() + 4096 * load_pages(
                elf.segments@,
                base as int,
                elf.segments@.len() as int,
            ),
    {
        let ghost segs = elf.segments@;
        let ghost olds = self.areas();
        let ghost kernel = self.kernel_regions();
        let ghost f0 = frames.next_paddr() as int;
        let ghost b = base as int;
        let ghost free0 = frames.spec_free_frames() as int;
        let n: usize = elf.segments.len();
        let mut k: usize = 0;
        proof {
            lemma_loaded_start(olds, segs, b, elf.input@, f0);
        }
        while k < n
            invariant
                k <= n,
                n == segs.len(),
                segs == elf.segments@,
                b == base,
                segments_loadable(olds, kernel, segs, b, elf.input@.len() as int, free0),
                loaded_upto(olds, self.areas(), segs, b, elf.input@, f0, k as int),
                self.wf(),
                self.kernel_regions() == kernel,
                self.spec_entry() == old(self).spec_entry(),
                self.spec_page_table().root() == old(self).spec_page_table().root(),
                frames.wf(),
                frames.end_paddr() == old(frames).end_paddr(),
                frames.returned() == old(frames).returned(),
                f0 == old(frames).next_paddr(),
                free0 == old(frames).spec_free_frames(),
                frames.next_paddr() == f0 + 4096 * load_pages(segs, b, k as int),
                old(frames).wf(),
            decreases n - k,
        {
            let ph = &elf.segments[k];
            let ghost cur = self.areas();
            if ph.kind == SegmentType::Load {
                proof {
                    assert(segs[k as int].is_load());
                    lemma_next_segment_free(olds, kernel, cur, segs, b, elf.input@, f0, free0, k as int);
                }
                self.load_segment(ph, elf.input.as_slice(), base, frames);
                proof {
                    lemma_loaded_step(olds, cur, self.areas(), segs, b, elf.input@, f0, k as int);
                }
            } else {
                proof {
                    lemma_loaded_skip(olds, cur, segs, b, elf.input@, f0, k as int);
                }
            }
            k += 1;
        }
    }

    /// Applies relocation entries in order: each stores its value at the
    /// base plus its offset, as eight bytes with the lowest first.
    pub fn apply_relocs(&mut self, entries: &[RelaEntry], syms: &[DynSymbol], base: u64, plt: bool)
        requires
            old(self).wf(),
            relocs_ok(*old(self), entries@, syms@, base, plt),
        ensures
            final(self).wf(),
            final(self).kernel_regions() == old(self).kernel_regions(),
            final(self).spec_entry() == old(self).spec_entry(),
            final(self).spec_page_table() == old(self).spec_page_table(),
            same_shape(old(self).areas(), final(self).areas()),
            forall|x: int|
                (#[trigger] final(self).spec_byte_at(x)).is_some() == old(self).spec_byte_at(
                    x,
                ).is_some(),
            forall|x: int|
                #[trigger] final(self).spec_byte_at(x) == reloc_fold(
                    entries@,
                    syms@,
                    base,
                    plt,
                    entries@.len() as int,
                    mem_of(*old(self)),
                )(x),
    {
        let ghost mem0: Memory = mem_of(*old(self));
        let mut k: usize = 0;
        while k < entries.len()
            invariant
                k <= entries@.len(),
                self.wf(),
                relocs_ok(*old(self), entries@, syms@, base, plt),
                mem0 == mem_of(*old(self)),
                self.kernel_regions() == old(self).kernel_regions(),
                self.spec_entry() == old(self).spec_entry(),
                self.spec_page_table() == old(self).spec_page_table(),
                same_shape(old(self).areas(), self.areas()),
                forall|x: int| (#[trigger] self.spec_byte_at(x)).is_some() == old(self).spec_byte_at(x).is_some(),
                forall|x: int|
                    #[trigger] self.spec_byte_at(x) == reloc_fold(
                        entries@,
                        syms@,
                        base,
                        plt,
                        k as int,
                        mem0,
                    )(x),
            decreases entries@.len() - k,
        {
            let e = &entries[k];
            assert(reloc_value(entries@[k as int], syms@, base, plt).is_some());
            let value = compute_reloc(e, syms, base, plt).unwrap();
            let addr: usize = (base + e.offset) as usize;
            let bytes = u64_to_le_bytes(value);
            let ghost before = *self;
            proof {
                assert(old(self).spec_range_resident(base + entries@[k as int].offset, 8));
                assert forall|x: int| addr <= x < addr + 8 implies (#[trigger] self.spec_byte_at(
                    x,
                )).is_some() by {
                    assert(old(self).spec_byte_at(x).is_some());
                }
            }
            let stored = self.write_bytes(addr, bytes.as_slice());
            assert(stored);
            proof {
                assert forall|x: int|
                    #[trigger] self.spec_byte_at(x) == reloc_fold(
                        entries@,
                        syms@,
                        base,
                        plt,
                        k + 1,
                        mem0,
                    )(x) by {
                    assert(before.spec_byte_at(x) == reloc_fold(entries@, syms@, base, plt, k as int, mem0)(x));
                }
                assert forall|x: int| (#[trigger] self.spec_byte_at(x)).is_some() == old(
                    self,
                ).spec_byte_at(x).is_some() by {
                    assert(before.spec_byte_at(x).is_some() == old(self).spec_byte_at(x).is_some());
                }
            }
            k += 1;
        }
    }
}

/// Whether `x` lies in the area of a LOAD segment.
pub open spec fn in_load_segment(segs: Seq<ProgramHeader>, base: int, x: int) -> bool {
    exists|k: int|
        0 <= k < segs.len() && (#[trigger] segs[k]).is_load() && segs[k].lo(base) <= x < segs[k].hi(
            base,
        )
}

/// Every entry can be applied once the segments are loaded: it has a value,
/// and each of the eight bytes at its target lies in the area of a LOAD
/// segment or in a page that was resident before.
pub open spec fn reloc_targets_ok(
    ms: MemorySet,
    segs: Seq<ProgramHeader>,
    entries: Seq<RelaEntry>,
    syms: Seq<DynSymbol>,
    base: u64,
    plt: bool,
) -> bool {
    forall|k: int|
        0 <= k < entries.len() ==> reloc_value(#[trigger] entries[k], syms, base, plt).is_some()
            && base + entries[k].offset + 8 <= usize::MAX && forall|x: int|
            base + entries[k].offset <= x < base + entries[k].offset + 8 ==> (#[trigger] ms.spec_byte_at(
                x,
            )).is_some() || in_load_segment(segs, base as int, x)
}

/// The relocation entries of `.rela.dyn`. They are applied whether or not
/// the image has a dynamic symbol table: without one, an entry that needs a
/// symbol has no value.
pub open spec fn dyn_entries(elf: ElfImage) -> Seq<RelaEntry> {
    if elf.rela_dyn.is_some() {
        elf.rela_dyn.unwrap()@
    } else {
        Seq::empty()
    }
}

/// The relocation entries of `.rela.plt`.
pub open spec fn plt_entries(elf: ElfImage) -> Seq<RelaEntry> {
    if elf.rela_plt.is_some() {
        elf.rela_plt.unwrap()@
    } else {
        Seq::empty()
    }
}

/// The dynamic symbols of the image.
pub open spec fn dyn_symbols(elf: ElfImage) -> Seq<DynSymbol> {
    if elf.dynsym.is_some() {
        elf.dynsym.unwrap()@
    } else {
        Seq::empty()
    }
}

/// The auxiliary vector of a loaded image.
pub open spec fn spec_auxv(elf: ElfImage) -> Map<u8, usize> {
    let base = spec_base(elf.segments@, elf.segments@.len() as int);
    Map::<u8, usize>::empty().insert(
        AT_PHDR,
        (spec_header_vaddr(elf.segments@, 0) + base + elf.ph_offset) as usize,
    ).insert(AT_PHENT, elf.ph_entry_size as usize).insert(AT_PHNUM, elf.ph_count as usize).insert(
        AT_RANDOM,
        0usize,
    ).insert(AT_PAGESZ, 4096usize)
}

/// The image can be loaded into the address space: it starts with the ELF
/// magic, its LOAD segments can be loaded, a `.rela.plt` comes with a
/// dynamic symbol table, every relocation entry can be applied, and the
/// entry point and the address of the program headers can be addressed.
pub open spec fn elf_loadable(ms: MemorySet, elf: ElfImage, free_frames: int) -> bool {
    let base = spec_base(elf.segments@, elf.segments@.len() as int);
    &&& elf.spec_magic_ok()
    &&& segments_loadable(
        ms.areas(),
        ms.kernel_regions(),
        elf.segments@,
        base as int,
        elf.input@.len() as int,
        free_frames,
    )
    &&& elf.rela_plt.is_some() ==> elf.dynsym.is_some()
    &&& reloc_targets_ok(ms, elf.segments@, dyn_entries(elf), dyn_symbols(elf), base as u64, false)
    &&& reloc_targets_ok(ms, elf.segments@, plt_entries(elf), dyn_symbols(elf), base as u64, true)
    &&& elf.entry + base <= usize::MAX
    &&& spec_header_vaddr(elf.segments@, 0) + base + elf.ph_offset <= usize::MAX
}

/// How an address space arises from `before` when `elf` is loaded into it.
/// First the areas of the LOAD segments are created, which gives `mid`.
/// Then the relocation entries of `.rela.dyn` and those of `.rela.plt` are
/// applied to the bytes of `mid`, which gives `after`.
pub open spec fn map_elf_post(
    before: MemorySet,
    mid: MemorySet,
    after: MemorySet,
    elf: ElfImage,
    f0: int,
) -> bool {
    let base = spec_base(elf.segments@, elf.segments@.len() as int);
    &&& loaded_upto(
        before.areas(),
        mid.areas(),
        elf.segments@,
        base as int,
        elf.input@,
        f0,
        elf.segments@.len() as int,
    )
    &&& same_shape(mid.areas(), after.areas())
    &&& forall|x: int|
        #[trigger] after.spec_byte_at(x) == reloc_fold(
            plt_entries(elf),
            dyn_symbols(elf),
            base as u64,
            true,
            plt_entries(elf).len() as int,
            reloc_fold(
                dyn_entries(elf),
                dyn_symbols(elf),
                base as u64,
                false,
                dyn_entries(elf).len() as int,
                mem_of(mid),
            ),
        )(x)
}

/// A list of areas that begins with another finds the same area for an
/// address as the other, where the other finds one.
pub proof fn lemma_find_prefix(olds: Seq<MapArea>, news: Seq<MapArea>, va: int, from: int)
    requires
        0 <= from,
        olds.len() <= news.len(),
        forall|i: int| 0 <= i < olds.len() ==> #[trigger] news[i] == olds[i],
        crate::memory_set::spec_find(olds, va, from) >= 0,
    ensures
        crate::memory_set::spec_find(news, va, from) == crate::memory_set::spec_find(olds, va, from),
    decreases olds.len() - from,
{
    if from < olds.len() {
        assert(news[from] == olds[from]);
        if !olds[from].covers(va) {
            lemma_find_prefix(olds, news, va, from + 1);
        }
    }
}

/// Once the segments are loaded, every byte that was resident before still
/// is, and every byte in the area of a LOAD segment is.
pub proof fn lemma_loaded_resident(
    before: MemorySet,
    after: MemorySet,
    segs: Seq<ProgramHeader>,
    b: int,
    input: Seq<u8>,
    f0: int,
    x: int,
)
    requires
        before.wf(),
        after.wf(),
        0 <= b,
        loaded_upto(before.areas(), after.areas(), segs, b, input, f0, segs.len() as int),
        before.spec_byte_at(x).is_some() || in_load_segment(segs, b, x),
    ensures
        after.spec_byte_at(x).is_some(),
{
    reveal(loaded_upto);
    let olds = before.areas();
    let news = after.areas();
    lemma_load_counts(segs, b, 0, segs.len() as int);
    if before.spec_byte_at(x).is_some() {
        lemma_find(olds, x, 0);
        lemma_find_prefix(olds, news, x, 0);
    } else {
        let k = choose|k: int|
            0 <= k < segs.len() && (#[trigger] segs[k]).is_load() && segs[k].lo(b) <= x < segs[k].hi(b);
        lemma_load_counts(segs, b, k + 1, segs.len() as int);
        lemma_load_counts(segs, b, 0, k);
        lemma_load_counts(segs, b, k, k + 1);
        let at = olds.len() + load_count(segs, k);
        let a = news[at];
        assert(a.covers(x));
        lemma_find(news, x, 0);
        let i = crate::memory_set::spec_find(news, x, 0);
        if i != at {
            assert(area_apart(news[i], news[at].vaddr as int, news[at].spec_end_va()));
        }
        reveal(segment_loaded);
        assert(a.wf());
        assert(a.pages@[a.slot_of(x)].is_some());
    }
}

impl MemorySet {
    /// Loads the image into the address space: creates the areas of its LOAD
    /// segments, applies the relocation entries of `.rela.dyn` and then
    /// those of `.rela.plt`, and sets the entry point to that of the image
    /// plus the base address. Returns the auxiliary vector.
    pub fn map_elf(&mut self, elf: &ElfImage, frames: &mut FrameAllocator) -> (auxv: BTreeMap<
        u8,
        usize,
    >)
        requires
            old(self).wf(),
            old(frames).wf(),
            elf_loadable(*old(self), *elf, old(frames).spec_free_frames() as int),
        ensures
            final(self).wf(),
            final(self).kernel_regions() == old(self).kernel_regions(),
            final(self).spec_page_table().root() == old(self).spec_page_table().root(),
            final(self).spec_entry() == elf.entry + spec_base(
                elf.segments@,
                elf.segments@.len() as int,
            ),
            auxv@ == spec_auxv(*elf),
            exists|mid: MemorySet| #[trigger] map_elf_post(*old(self), mid, *final(self), *elf, old(frames).next_paddr() as int),
            final(frames).wf(),
            final(frames).end_paddr() == old(frames).end_paddr(),
            final(frames).returned() == old(frames).returned(),
            final(frames).next_paddr() == old(frames).next_paddr() + 4096 * load_pages(
                elf.segments@,
                spec_base(elf.segments@, elf.segments@.len() as int) as int,
                elf.segments@.len() as int,
            ),
    {
        let base: usize = elf.base_addr();
        let header: u64 = elf.header_vaddr();
        let ghost segs = elf.segments@;
        let ghost f0 = frames.next_paddr() as int;
        self.load_segments(elf, base, frames);
        let ghost mid = *self;
        let no_syms: Vec<DynSymbol> = Vec::new();
        let no_entries: Vec<RelaEntry> = Vec::new();
        let syms: &Vec<DynSymbol> = match &elf.dynsym {
            Some(syms) => syms,
            None => &no_syms,
        };
        let dyn_rel: &Vec<RelaEntry> = match &elf.rela_dyn {
            Some(entries) => entries,
            None => &no_entries,
        };
        let plt_rel: &Vec<RelaEntry> = match &elf.rela_plt {
            Some(entries) => entries,
            None => &no_entries,
        };
        assert(syms@ == dyn_symbols(*elf));
        assert(dyn_rel@ == dyn_entries(*elf));
        assert(plt_rel@ == plt_entries(*elf));
        proof {
            assert forall|k: int| 0 <= k < dyn_rel@.len() implies mid.spec_range_resident(
                base + (#[trigger] dyn_rel@[k]).offset,
                8,
            ) by {
                assert forall|x: int|
                    base + dyn_rel@[k].offset <= x < base + dyn_rel@[k].offset + 8 implies (#[trigger] mid.spec_byte_at(
                    x,
                )).is_some() by {
                    assert(old(self).spec_byte_at(x).is_some() || in_load_segment(segs, base as int, x));
                    lemma_loaded_resident(*old(self), mid, segs, base as int, elf.input@, f0, x);
                }
            }
        }
        self.apply_relocs(dyn_rel.as_slice(), syms.as_slice(), base as u64, false);
        let ghost after_dyn = *self;
        proof {
            assert forall|k: int| 0 <= k < plt_rel@.len() implies after_dyn.spec_range_resident(
                base + (#[trigger] plt_rel@[k]).offset,
                8,
            ) by {
                assert forall|x: int|
                    base + plt_rel@[k].offset <= x < base + plt_rel@[k].offset + 8 implies (#[trigger] after_dyn.spec_byte_at(
                    x,
                )).is_some() by {
                    assert(old(self).spec_byte_at(x).is_some() || in_load_segment(segs, base as int, x));
                    lemma_loaded_resident(*old(self), mid, segs, base as int, elf.input@, f0, x);
                    assert(mid.spec_byte_at(x).is_some());
                }
            }
        }
        self.apply_relocs(plt_rel.as_slice(), syms.as_slice(), base as u64, true);
        let ghost before_entry = *self;
        self.set_entry(elf.entry as usize + base);
        let mut auxv: BTreeMap<u8, usize> = BTreeMap::new();
        auxv.insert(AT_PHDR, (header as usize + base) + elf.ph_offset as usize);
        auxv.insert(AT_PHENT, elf.ph_entry_size as usize);
        auxv.insert(AT_PHNUM, elf.ph_count as usize);
        auxv.insert(AT_RANDOM, 0);
        auxv.insert(AT_PAGESZ, PAGE_SIZE_4K);
        proof {
            let r1 = reloc_fold(dyn_rel@, syms@, base as u64, false, dyn_rel@.len() as int, mem_of(mid));
            assert(mem_of(after_dyn) =~= r1);
            crate::memory_set::lemma_same_shape_trans(mid.areas(), after_dyn.areas(), self.areas());
            assert(same_shape(mid.areas(), self.areas()));
            assert(loaded_upto(
                old(self).areas(),
                mid.areas(),
                elf.segments@,
                base as int,
                elf.input@,
                f0,
                elf.segments@.len() as int,
            ));
            assert forall|x: int|
                #[trigger] self.spec_byte_at(x) == reloc_fold(
                    plt_entries(*elf),
                    dyn_symbols(*elf),
                    base as u64,
                    true,
                    plt_entries(*elf).len() as int,
                    r1,
                )(x) by {
                assert(before_entry.spec_byte_at(x) == reloc_fold(
                    plt_rel@,
                    syms@,
                    base as u64,
                    true,
                    plt_rel@.len() as int,
                    mem_of(after_dyn),
                )(x));
            }
            assert(map_elf_post(*old(self), mid, *self, *elf, f0));
        }
        auxv
    }
}

/// Every entry can be applied once the segments are loaded: it has a value,
/// and each of the eight bytes at its target lies in the area of a LOAD
/// segment.
pub open spec fn image_relocs_ok(
    segs: Seq<ProgramHeader>,
    entries: Seq<RelaEntry>,
    syms: Seq<DynSymbol>,
    base: u64,
    plt: bool,
) -> bool {
    forall|k: int|
        0 <= k < entries.len() ==> reloc_value(#[trigger] entries[k], syms, base, plt).is_some()
            && base + entries[k].offset + 8 <= usize::MAX && forall|x: int|
            base + entries[k].offset <= x < base + entries[k].offset + 8 ==> #[trigger] in_load_segment(
                segs,
                base as int,
                x,
            )
}

/// The image can be loaded into an address space that holds nothing but the
/// kernel regions `kernel`: it starts with the ELF magic, its LOAD segments
/// can be loaded, a `.rela.plt` comes with a dynamic symbol table, every
/// relocation entry can be applied within the image, and the entry point and
/// the address of the program headers can be addressed.
pub open spec fn image_loadable(elf: ElfImage, kernel: Seq<MemRegion>, free_frames: int) -> bool {
    let base = spec_base(elf.segments@, elf.segments@.len() as int);
    &&& elf.spec_magic_ok()
    &&& segments_loadable(
        Seq::<MapArea>::empty(),
        kernel,
        elf.segments@,
        base as int,
        elf.input@.len() as int,
        free_frames,
    )
    &&& elf.rela_plt.is_some() ==> elf.dynsym.is_some()
    &&& image_relocs_ok(elf.segments@, dyn_entries(elf), dyn_symbols(elf), base as u64, false)
    &&& image_relocs_ok(elf.segments@, plt_entries(elf), dyn_symbols(elf), base as u64, true)
    &&& elf.entry + base <= usize::MAX
    &&& spec_header_vaddr(elf.segments@, 0) + base + elf.ph_offset <= usize::MAX
}

/// An image that can be loaded into an address space that holds nothing but
/// the kernel regions can be loaded into every such address space.
pub proof fn lemma_fresh_loadable(ms: MemorySet, elf: ElfImage, free_frames: int)
    requires
        ms.areas().len() == 0,
        image_loadable(elf, ms.kernel_regions(), free_frames),
    ensures
        elf_loadable(ms, elf, free_frames),
{
    assert(ms.areas() =~= Seq::<MapArea>::empty());
}

impl ProgramHeader {
    /// Whether the segment can be loaded: see `ok`.
    pub fn check(&self, base: usize, input_len: usize) -> (r: bool)
        ensures
            r == self.ok(base as int, input_len as int),
    {
        proof {
            reveal(ProgramHeader::ok);
            reveal(ProgramHeader::lo);
            reveal(ProgramHeader::hi);
            reveal(ProgramHeader::pages);
        }
        let start: u128 = self.vaddr as u128 + base as u128;
        let end: u128 = start + self.mem_size as u128;
        if end > usize::MAX as u128 {
            return false;
        }
        let pad: u128 = start % 4096;
        let span: u128 = self.mem_size as u128 + pad;
        let pages: u128 = (span + 4095) / 4096;
        let lo: u128 = start - pad;
        if lo + pages * 4096 > usize::MAX as u128 {
            return false;
        }
        if pages * 4096 > i64::MAX as u128 {
            return false;
        }
        if self.offset as u128 + self.file_size as u128 > input_len as u128 {
            return false;
        }
        if pad != (self.offset % 4096) as u128 {
            return false;
        }
        if span == 0 {
            return false;
        }
        self.file_size as u128 + pad <= pages * 4096
    }

    /// The range of the area of the segment, and the number of its pages.
    pub fn area_range(&self, base: usize, input_len: usize) -> (r: (usize, usize, usize))
        requires
            self.ok(base as int, input_len as int),
        ensures
            r.0 == self.lo(base as int),
            r.1 == self.hi(base as int),
            r.2 == self.pages(base as int),
            r.0 <= r.1,
    {
        proof {
            reveal(ProgramHeader::ok);
            reveal(ProgramHeader::lo);
            reveal(ProgramHeader::hi);
            reveal(ProgramHeader::pages);
        }
        let start: usize = self.vaddr as usize + base;
        let pad: usize = start % PAGE_SIZE_4K;
        let lo: usize = start - pad;
        let pages: usize = crate::addr::pages_for(self.mem_size as usize + pad);
        (lo, lo + pages * PAGE_SIZE_4K, pages)
    }
}

/// Whether `[lo, hi)` lies apart from every region of `kernel`.
pub fn regions_apart(kernel: &[MemRegion], lo: usize, hi: usize) -> (r: bool)
    ensures
        r == (forall|q: int| 0 <= q < kernel@.len() ==> (#[trigger] kernel@[q]).apart(lo as int, hi as int)),
{
    let mut q: usize = 0;
    while q < kernel.len()
        invariant
            q <= kernel@.len(),
            forall|j: int| 0 <= j < q ==> (#[trigger] kernel@[j]).apart(lo as int, hi as int),
        decreases kernel@.len() - q,
    {
        let region = &kernel[q];
        if !(region.size <= usize::MAX - region.vaddr && region.vaddr + region.size <= lo || hi
            <= region.vaddr) {
            assert(!kernel@[q as int].apart(lo as int, hi as int));
            return false;
        }
        q += 1;
    }
    true
}

impl ElfImage {
    /// Whether the LOAD segments can all be loaded into an address space
    /// that holds nothing but the kernel regions `kernel`: see
    /// `segments_loadable`.
    pub fn segments_check(&self, kernel: &[MemRegion], base: usize, free_frames: usize) -> (r: bool)
        requires
            free_frames < usize::MAX,
        ensures
            r == segments_loadable(
                Seq::<MapArea>::empty(),
                kernel@,
                self.segments@,
                base as int,
                self.input@.len() as int,
                free_frames as int,
            ),
    {
        proof {
            reveal(segments_loadable);
        }
        let ghost segs = self.segments@;
        let ghost b = base as int;
        let ghost none = Seq::<MapArea>::empty();
        let input_len: usize = self.input.len();
        let n: usize = self.segments.len();
        let mut total: usize = 0;
        let mut k: usize = 0;
        while k < n
            invariant
                k <= n,
                n == segs.len(),
                segs == self.segments@,
                b == base,
                input_len == self.input@.len(),
                none == Seq::<MapArea>::empty(),
                forall|j: int|
                    0 <= j < k && (#[trigger] segs[j]).is_load() ==> segs[j].ok(b, input_len as int)
                        && range_free(none, kernel@, segs[j].lo(b), segs[j].hi(b)),
                forall|i: int, j: int|
                    0 <= i < j < k && (#[trigger] segs[i]).is_load() && (#[trigger] segs[j]).is_load()
                        ==> segs[i].hi(b) <= segs[j].lo(b) || segs[j].hi(b) <= segs[i].lo(b),
                total == load_pages(segs, b, k as int) || (total == usize::MAX && load_pages(
                    segs,
                    b,
                    k as int,
                ) >= usize::MAX),
            decreases n - k,
        {
            let ph = &self.segments[k];
            proof {
                lemma_load_counts(segs, b, 0, k as int);
                lemma_load_counts(segs, b, k as int, k as int + 1);
            }
            if ph.kind == SegmentType::Load {
                assert(segs[k as int].is_load());
                if !ph.check(base, input_len) {
                    proof {
                        reveal(segments_loadable);
                    }
                    return false;
                }
                let (lo, hi, pages) = ph.area_range(base, input_len);
                if !regions_apart(kernel, lo, hi) {
                    proof {
                        reveal(segments_loadable);
                    }
                    assert(!range_free(none, kernel@, segs[k as int].lo(b), segs[k as int].hi(b)));
                    return false;
                }
                let mut i: usize = 0;
                while i < k
                    invariant
                        i <= k < n,
                        n == segs.len(),
                        segs == self.segments@,
                        b == base,
                        input_len == self.input@.len(),
                        segs[k as int].is_load(),
                        lo == segs[k as int].lo(b),
                        hi == segs[k as int].hi(b),
                        forall|j: int|
                            0 <= j < k && (#[trigger] segs[j]).is_load() ==> segs[j].ok(
                                b,
                                input_len as int,
                            ),
                        forall|j: int|
                            0 <= j < i && (#[trigger] segs[j]).is_load() ==> segs[j].hi(b) <= lo
                                || hi <= segs[j].lo(b),
                    decreases k - i,
                {
                    let other = &self.segments[i];
                    if other.kind == SegmentType::Load {
                        assert(segs[i as int].is_load());
                        let (olo, ohi, _) = other.area_range(base, input_len);
                        if !(ohi <= lo || hi <= olo) {
                            proof {
                                reveal(segments_loadable);
                            }
                            return false;
                        }
                    }
                    i += 1;
                }
                total = if pages > usize::MAX - total {
                    usize::MAX
                } else {
                    total + pages
                };
            }
            k += 1;
        }
        proof {
            reveal(segments_loadable);
            assert forall|j: int| 0 <= j < segs.len() && (#[trigger] segs[j]).is_load() implies segs[j].ok(
                b,
                input_len as int,
            ) && range_free(none, kernel@, segs[j].lo(b), segs[j].hi(b)) by {}
        }
        total <= free_frames
    }

    /// Whether every relocation entry of `entries` can be applied within the
    /// image: see `image_relocs_ok`.
    pub fn relocs_check(&self, entries: &[RelaEntry], syms: &[DynSymbol], base: usize, plt: bool) -> (r:
        bool)
        requires
            forall|j: int|
                0 <= j < self.segments@.len() && (#[trigger] self.segments@[j]).is_load()
                    ==> self.segments@[j].ok(base as int, self.input@.len() as int),
        ensures
            r == image_relocs_ok(self.segments@, entries@, syms@, base as u64, plt),
    {
        let ghost segs = self.segments@;
        let input_len: usize = self.input.len();
        let mut k: usize = 0;
        while k < entries.len()
            invariant
                k <= entries@.len(),
                segs == self.segments@,
                input_len == self.input@.len(),
                forall|j: int|
                    0 <= j < segs.len() && (#[trigger] segs[j]).is_load() ==> segs[j].ok(
                        base as int,
                        input_len as int,
                    ),
                image_relocs_ok(segs, entries@.subrange(0, k as int), syms@, base as u64, plt),
            decreases entries@.len() - k,
        {
            let e = &entries[k];
            let ghost upto = entries@.subrange(0, k as int);
            let ghost next = entries@.subrange(0, k + 1);
            if compute_reloc(e, syms, base as u64, plt).is_none() {
                assert(reloc_value(entries@[k as int], syms@, base as u64, plt).is_none());
                return false;
            }
            if e.offset > (usize::MAX - 8) as u64 || base > usize::MAX - 8 - e.offset as usize {
                assert(!(base + entries@[k as int].offset + 8 <= usize::MAX));
                return false;
            }
            let target: usize = base + e.offset as usize;
            let mut d: usize = 0;
            while d < 8
                invariant
                    d <= 8,
                    k < entries@.len(),
                    target == base + entries@[k as int].offset,
                    target + 8 <= usize::MAX,
                    segs == self.segments@,
                    input_len == self.input@.len(),
                    forall|j: int|
                        0 <= j < segs.len() && (#[trigger] segs[j]).is_load() ==> segs[j].ok(
                            base as int,
                            input_len as int,
                        ),
                    forall|x: int| target <= x < target + d ==> #[trigger] in_load_segment(segs, base as int, x),
                decreases 8 - d,
            {
                let x: usize = target + d;
                let mut found = false;
                let mut j: usize = 0;
                while j < self.segments.len()
                    invariant
                        j <= segs.len(),
                        segs == self.segments@,
                        input_len == self.input@.len(),
                        forall|i: int|
                            0 <= i < segs.len() && (#[trigger] segs[i]).is_load() ==> segs[i].ok(
                                base as int,
                                input_len as int,
                            ),
                        found ==> in_load_segment(segs, base as int, x as int),
                        !found ==> forall|i: int|
                            0 <= i < j ==> !((#[trigger] segs[i]).is_load() && segs[i].lo(base as int)
                                <= x < segs[i].hi(base as int)),
                    decreases segs.len() - j,
                {
                    let ph = &self.segments[j];
                    if ph.kind == SegmentType::Load {
                        assert(segs[j as int].is_load());
                        let (lo, hi, _) = ph.area_range(base, input_len);
                        if lo <= x && x < hi {
                            found = true;
                        }
                    }
                    j += 1;
                }
                if !found {
                    assert(!in_load_segment(segs, base as int, x as int));
                    return false;
                }
                d += 1;
            }
            proof {
                assert forall|i: int| 0 <= i < next.len() implies reloc_value(
                    #[trigger] next[i],
                    syms@,
                    base as u64,
                    plt,
                ).is_some() && base + next[i].offset + 8 <= usize::MAX && forall|x: int|
                    base + next[i].offset <= x < base + next[i].offset + 8 ==> #[trigger] in_load_segment(
                        segs,
                        base as int,
                        x,
                    ) by {
                    if i < k {
                        assert(next[i] == upto[i]);
                    }
                }
            }
            k += 1;
        }
        assert(entries@.subrange(0, entries@.len() as int) =~= entries@);
        true
    }

    /// Whether the image can be loaded into an address space that holds
    /// nothing but the kernel regions `kernel`: see `image_loadable`.
    pub fn loadable(&self, kernel: &[MemRegion], free_frames: usize) -> (r: bool)
        requires
            free_frames < usize::MAX,
        ensures
            r == image_loadable(*self, kernel@, free_frames as int),
    {
        if !self.magic_ok() {
            return false;
        }
        let base: usize = self.base_addr();
        if !self.segments_check(kernel, base, free_frames) {
            return false;
        }
        proof {
            reveal(segments_loadable);
        }
        if self.rela_plt.is_some() && self.dynsym.is_none() {
            return false;
        }
        let no_syms: Vec<DynSymbol> = Vec::new();
        let no_entries: Vec<RelaEntry> = Vec::new();
        let syms: &Vec<DynSymbol> = match &self.dynsym {
            Some(syms) => syms,
            None => &no_syms,
        };
        let dyn_rel: &Vec<RelaEntry> = match &self.rela_dyn {
            Some(entries) => entries,
            None => &no_entries,
        };
        let plt_rel: &Vec<RelaEntry> = match &self.rela_plt {
            Some(entries) => entries,
            None => &no_entries,
        };
        assert(syms@ == dyn_symbols(*self));
        assert(dyn_rel@ == dyn_entries(*self));
        assert(plt_rel@ == plt_entries(*self));
        if !self.relocs_check(dyn_rel.as_slice(), syms.as_slice(), base, false) {
            return false;
        }
        if !self.relocs_check(plt_rel.as_slice(), syms.as_slice(), base, true) {
            return false;
        }
        if self.entry > (usize::MAX - base) as u64 {
            return false;
        }
        let header: u128 = self.header_vaddr() as u128 + base as u128 + self.ph_offset as u128;
        header <= usize::MAX as u128
    }
}

} // verus!
