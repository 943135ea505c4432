//! Strings in user memory.

use crate::memory_set::MemorySet;
use vstd::prelude::*;

verus! {

/// The length of the string at `va`: the number of bytes before the first
/// zero byte, where all of them and the zero byte lie in resident pages
/// among the `fuel` addresses from `va` on.
pub open spec fn spec_str_len(ms: MemorySet, va: int, fuel: nat) -> Option<nat>
    decreases fuel,
{
    if fuel == 0 {
        None
    } else {
        match ms.spec_byte_at(va) {
            None => None,
            Some(b) => if b == 0 {
                Some(0nat)
            } else {
                match spec_str_len(ms, va + 1, (fuel - 1) as nat) {
                    Some(n) => Some(n + 1),
                    None => None,
                }
            },
        }
    }
}

/// The string at `va`: the bytes before the first zero byte.
pub open spec fn spec_cstr(ms: MemorySet, va: int) -> Option<Seq<u8>> {
    match spec_str_len(ms, va, (usize::MAX - va + 1) as nat) {
        Some(n) => ms.spec_bytes_at(va, n as int),
        None => None,
    }
}

/// The length of the string at `start` in the address space; `None` where
/// the string runs into a page that is not resident, or past the end of the
/// address space.
pub fn get_str_len(ms: &MemorySet, start: usize) -> (r: Option<usize>)
    requires
        ms.wf(),
    ensures
        match spec_str_len(*ms, start as int, (usize::MAX - start + 1) as nat) {
            Some(n) => r == Some(n as usize) && start + n <= usize::MAX,
            None => r.is_none(),
        },
{
    let mut ptr: usize = start;
    loop
        invariant
            ms.wf(),
            start <= ptr,
            spec_str_len(*ms, start as int, (usize::MAX - start + 1) as nat) == (match spec_str_len(
                *ms,
                ptr as int,
                (usize::MAX - ptr + 1) as nat,
            ) {
                Some(n) => Some((n + (ptr - start)) as nat),
                None => None::<nat>,
            }),
        decreases usize::MAX - ptr,
    {
        match ms.peek(ptr) {
            None => {
                return None;
            },
            Some(b) => {
                if b == 0 {
                    return Some(ptr - start);
                }
                if ptr == usize::MAX {
                    assert(spec_str_len(*ms, ptr + 1, 0nat).is_none());
                    return None;
                }
                ptr += 1;
            },
        }
    }
}

/// A copy of the string at `start` in the address space, without the zero
/// byte that ends it.
pub fn raw_ptr_to_ref_str(ms: &MemorySet, start: usize) -> (r: Option<Vec<u8>>)
    requires
        ms.wf(),
    ensures
        match spec_cstr(*ms, start as int) {
            Some(s) => r.is_some() && r.unwrap()@ == s,
            None => r.is_none(),
        },
{
    match get_str_len(ms, start) {
        Some(len) => ms.read_bytes(start, len),
        None => None,
    }
}

} // verus!
