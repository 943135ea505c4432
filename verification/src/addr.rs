//! Page-granular address arithmetic.

use vstd::prelude::*;

verus! {

/// Size of a page, in bytes.
pub const PAGE_SIZE_4K: usize = 0x1000;

/// The largest multiple of the page size that is not above `addr`.
pub open spec fn spec_align_down_4k(addr: int) -> int {
    addr - addr % 4096
}

/// The smallest multiple of the page size that is not below `addr`.
pub open spec fn spec_align_up_4k(addr: int) -> int {
    spec_align_down_4k(addr + 4095)
}

/// Whether `addr` is a multiple of the page size.
pub open spec fn spec_is_aligned_4k(addr: int) -> bool {
    addr % 4096 == 0
}

/// Number of pages needed to hold `size` bytes.
pub open spec fn spec_pages_for(size: int) -> int {
    (size + 4095) / 4096
}

/// `memory_addr::align_down_4k` clears the low twelve bits of `addr`, which
/// rounds it down to a page boundary.
pub assume_specification[ memory_addr::align_down_4k ](addr: usize) -> (r: usize)
    ensures
        r as int == spec_align_down_4k(addr as int),
;

/// `memory_addr::align_up_4k` adds the page size, takes one off and clears
/// the low twelve bits, which rounds `addr` up to a page boundary. The first
/// of these steps must not overflow: `addr + 4096` has to be an address.
pub assume_specification[ memory_addr::align_up_4k ](addr: usize) -> (r: usize)
    requires
        addr + 4096 <= usize::MAX,
    ensures
        r as int == spec_align_up_4k(addr as int),
;

/// `memory_addr::is_aligned_4k` tests whether the low twelve bits of `addr`
/// are all zero.
pub assume_specification[ memory_addr::is_aligned_4k ](addr: usize) -> (r: bool)
    ensures
        r == spec_is_aligned_4k(addr as int),
;

/// Number of pages needed to hold `size` bytes.
pub fn pages_for(size: usize) -> (n: usize)
    ensures
        n as int == spec_pages_for(size as int),
{
    let whole: usize = size / PAGE_SIZE_4K;
    if size % PAGE_SIZE_4K == 0 {
        whole
    } else {
        whole + 1
    }
}

/// Facts about page rounding that the rest of the crate relies on.
pub proof fn lemma_align_4k(addr: int)
    requires
        0 <= addr,
    ensures
        spec_align_down_4k(addr) % 4096 == 0,
        spec_align_down_4k(addr) <= addr < spec_align_down_4k(addr) + 4096,
        spec_align_up_4k(addr) % 4096 == 0,
        addr <= spec_align_up_4k(addr) < addr + 4096,
        spec_align_up_4k(addr) == spec_pages_for(addr) * 4096,
        addr % 4096 == 0 ==> spec_align_down_4k(addr) == addr && spec_align_up_4k(addr) == addr,
{
}

} // verus!
