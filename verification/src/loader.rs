//! Building the init task from an ELF image: the address space, the stacks,
//! the trap frame, and the arguments on the user stack.

use crate::context::{
    gen_trap_frame, spec_user_sstatus, GeneralRegisters, TaskContext, TrapFrame, SSTATUS_SUM,
};
use crate::elf::{
    image_loadable, lemma_load_counts, lemma_loaded_index, load_count, load_pages, loaded_upto,
    map_elf_post, mem_of, regions_apart, segment_loaded, segments_loadable, spec_auxv, spec_base,
    spec_store, ElfImage, Memory, SegmentType, AT_PAGESZ, AT_PHDR, AT_PHENT, AT_PHNUM, AT_RANDOM,
};
use crate::fd::FdList;
use crate::flags::MappingFlags;
use crate::frame::FrameAllocator;
use crate::kernel::Kernel;
use crate::memory_set::{
    is_loaded_region, kernel_ok, lemma_same_shape_trans, same_shape, MemRegion, MemorySet,
};
use crate::stack::{TaskStack, TASK_STACK_SIZE};
use crate::task::{sp_moved, words_bytes, Task, TaskState};
use std::collections::BTreeMap;
use vstd::prelude::*;
use vstd::string::StringSliceAdditionalSpecFns;

verus! {

broadcast use vstd::std_specs::btree::group_btree_axioms;

/// The lowest address of the user stack of the init task.
pub const USTACK_BOTTOM: usize = 0x3fe5_0000;

/// The two words that the init task finds as its random bytes.
pub const RANDOM_LO: u64 = 3703830112808742751;

pub const RANDOM_HI: u64 = 7081108068768079778;

/// A user stack while it is built: the stack pointer and the memory.
pub struct StackImage {
    pub sp: int,
    pub mem: Memory,
}

/// The stack after `bytes` have been pushed.
pub open spec fn push_bytes_image(s: StackImage, bytes: Seq<u8>) -> StackImage {
    StackImage { sp: s.sp - bytes.len(), mem: spec_store(s.mem, s.sp - bytes.len(), bytes) }
}

/// The stack after the string `s` has been pushed: its bytes, then a zero byte.
pub open spec fn push_str_image(st: StackImage, s: Seq<u8>) -> StackImage {
    push_bytes_image(st, s + seq![0u8])
}

/// Where the stack pointer is after `n` words have been pushed: lower by
/// eight bytes for each word, then rounded down to a multiple of eight.
pub open spec fn sp_after_words(sp: int, n: int) -> int {
    (sp - 8 * n) - (sp - 8 * n) % 8
}

/// The stack after the words `ws` have been pushed.
pub open spec fn push_words_image(s: StackImage, ws: Seq<usize>) -> StackImage {
    StackImage {
        sp: sp_after_words(s.sp, ws.len() as int),
        mem: spec_store(s.mem, sp_after_words(s.sp, ws.len() as int), words_bytes(ws)),
    }
}

/// The stack after the first `upto` strings of `strs` have been pushed in
/// order, and the addresses of the strings.
pub open spec fn push_strs_image(s: StackImage, strs: Seq<Seq<u8>>, upto: int) -> (StackImage, Seq<usize>)
    decreases upto,
{
    if upto <= 0 {
        (s, Seq::empty())
    } else {
        let before = push_strs_image(s, strs, upto - 1);
        let after = push_str_image(before.0, strs[upto - 1]);
        (after, before.1.push(after.sp as usize))
    }
}

/// The pairs of the auxiliary vector in the order in which they are pushed:
/// by ascending type. The entry of type AT_RANDOM holds `random`, the
/// address of the random bytes.
pub open spec fn auxv_pairs(auxv: Map<u8, usize>, random: usize) -> Seq<Seq<usize>> {
    seq![
        seq![AT_PHDR as usize, auxv[AT_PHDR]],
        seq![AT_PHENT as usize, auxv[AT_PHENT]],
        seq![AT_PHNUM as usize, auxv[AT_PHNUM]],
        seq![AT_PAGESZ as usize, auxv[AT_PAGESZ]],
        seq![AT_RANDOM as usize, random],
    ]
}

/// The stack after the first `upto` pairs have been pushed in order.
pub open spec fn push_pairs_image(s: StackImage, pairs: Seq<Seq<usize>>, upto: int) -> StackImage
    decreases upto,
{
    if upto <= 0 {
        s
    } else {
        push_words_image(push_pairs_image(s, pairs, upto - 1), pairs[upto - 1])
    }
}

/// The bytes of each string.
pub open spec fn strs_bytes(strs: Seq<&str>) -> Seq<Seq<u8>> {
    Seq::new(strs.len(), |i: int| strs[i].spec_bytes())
}

/// The user stack of the init task. Pushed from the top down: the first
/// argument; the two random words; the strings of the environment; the
/// arguments; the pair (0, 0) that ends the auxiliary vector; the pairs of
/// the auxiliary vector; a null word and the addresses of the environment
/// strings; a null word and the addresses of the arguments; and the number
/// of arguments.
pub open spec fn init_stack_image(
    s: StackImage,
    args: Seq<Seq<u8>>,
    envs: Seq<Seq<u8>>,
    auxv: Map<u8, usize>,
) -> StackImage {
    let s1 = push_str_image(s, args[0]);
    let s2 = push_words_image(s1, seq![RANDOM_LO as usize, RANDOM_HI as usize]);
    let s3 = push_strs_image(s2, envs, envs.len() as int);
    let s4 = push_strs_image(s3.0, args, args.len() as int);
    let s5 = push_words_image(s4.0, seq![0usize, 0usize]);
    let s6 = push_pairs_image(s5, auxv_pairs(auxv, s2.sp as usize), 5);
    let s7 = push_words_image(s6, seq![0usize]);
    let s8 = push_words_image(s7, s3.1);
    let s9 = push_words_image(s8, seq![0usize]);
    let s10 = push_words_image(s9, s4.1);
    push_words_image(s10, seq![args.len() as usize])
}

/// Every address of `[lo, top)` lies in a resident page.
pub open spec fn stack_resident(ms: MemorySet, lo: int, top: int) -> bool {
    forall|x: int| lo <= x < top ==> (#[trigger] ms.spec_byte_at(x)).is_some()
}

/// The stack of `task` in the address space `space` is `img`.
pub open spec fn has_image(task: Task, space: MemorySet, img: StackImage) -> bool {
    task.spec_frame().regs.sp == img.sp && mem_of(space) == img.mem
}

/// Pushing lowers the stack pointer.
pub proof fn lemma_strs_lower(s: StackImage, strs: Seq<Seq<u8>>, lo: int, hi: int)
    requires
        0 <= lo <= hi,
    ensures
        push_strs_image(s, strs, hi).0.sp <= push_strs_image(s, strs, lo).0.sp <= s.sp,
        push_strs_image(s, strs, lo).1.len() == lo,
    decreases hi,
{
    if lo < hi {
        lemma_strs_lower(s, strs, lo, hi - 1);
    } else if hi > 0 {
        lemma_strs_lower(s, strs, lo - 1, hi - 1);
    }
}

/// Pushing lowers the stack pointer.
pub proof fn lemma_pairs_lower(s: StackImage, pairs: Seq<Seq<usize>>, lo: int, hi: int)
    requires
        0 <= lo <= hi,
    ensures
        push_pairs_image(s, pairs, hi).sp <= push_pairs_image(s, pairs, lo).sp <= s.sp,
    decreases hi,
{
    if lo < hi {
        lemma_pairs_lower(s, pairs, lo, hi - 1);
    } else if hi > 0 {
        lemma_pairs_lower(s, pairs, lo - 1, hi - 1);
    }
}

/// What a push leaves of the address space: all but the bytes.
pub open spec fn space_kept(before: MemorySet, after: MemorySet) -> bool {
    &&& after.wf()
    &&& after.kernel_regions() == before.kernel_regions()
    &&& after.spec_entry() == before.spec_entry()
    &&& after.spec_page_table() == before.spec_page_table()
    &&& same_shape(before.areas(), after.areas())
}

/// Pushes one string on the stack of `task`.
fn push_one_str(task: &mut Task, space: &mut MemorySet, s: &str, lo: usize, top: usize, img: Ghost<
    StackImage,
>) -> (addr: usize)
    requires
        old(space).wf(),
        has_image(*old(task), *old(space), img@),
        stack_resident(*old(space), lo as int, top as int),
        img@.sp <= top,
        push_str_image(img@, s.spec_bytes()).sp >= lo,
    ensures
        space_kept(*old(space), *final(space)),
        sp_moved(*old(task), *final(task), addr),
        addr == push_str_image(img@, s.spec_bytes()).sp,
        has_image(*final(task), *final(space), push_str_image(img@, s.spec_bytes())),
        stack_resident(*final(space), lo as int, top as int),
{
    assert(space.spec_range_resident(
        task.spec_frame().regs.sp - s.spec_bytes().len() - 1,
        s.spec_bytes().len() as int + 1,
    ));
    let addr = task.push_str(s, space);
    assert(mem_of(*space) =~= push_str_image(img@, s.spec_bytes()).mem);
    addr
}

/// Pushes words on the stack of `task`.
fn push_some_words(task: &mut Task, space: &mut MemorySet, ws: &[usize], lo: usize, top: usize, img: Ghost<
    StackImage,
>) -> (addr: usize)
    requires
        old(space).wf(),
        has_image(*old(task), *old(space), img@),
        stack_resident(*old(space), lo as int, top as int),
        img@.sp <= top,
        push_words_image(img@, ws@).sp >= lo,
    ensures
        space_kept(*old(space), *final(space)),
        sp_moved(*old(task), *final(task), addr),
        addr == push_words_image(img@, ws@).sp,
        has_image(*final(task), *final(space), push_words_image(img@, ws@)),
        stack_resident(*final(space), lo as int, top as int),
{
    proof {
        crate::task::lemma_words_bytes_len(ws@);
    }
    assert(space.spec_range_resident(
        sp_after_words(task.spec_frame().regs.sp as int, ws@.len() as int),
        8 * ws@.len() as int,
    ));
    let addr = task.push_slice(ws, space);
    assert(mem_of(*space) =~= push_words_image(img@, ws@).mem);
    addr
}

/// Pushes the strings `strs` on the stack of `task`, in order. Returns their
/// addresses.
fn push_all_strs(task: &mut Task, space: &mut MemorySet, strs: &[&str], lo: usize, top: usize, img: Ghost<
    StackImage,
>) -> (addrs: Vec<usize>)
    requires
        old(space).wf(),
        has_image(*old(task), *old(space), img@),
        stack_resident(*old(space), lo as int, top as int),
        img@.sp <= top,
        push_strs_image(img@, strs_bytes(strs@), strs@.len() as int).0.sp >= lo,
    ensures
        space_kept(*old(space), *final(space)),
        sp_moved(*old(task), *final(task), final(task).spec_frame().regs.sp),
        has_image(
            *final(task),
            *final(space),
            push_strs_image(img@, strs_bytes(strs@), strs@.len() as int).0,
        ),
        addrs@ == push_strs_image(img@, strs_bytes(strs@), strs@.len() as int).1,
        stack_resident(*final(space), lo as int, top as int),
{
    let ghost all = strs_bytes(strs@);
    let mut addrs: Vec<usize> = Vec::new();
    let mut i: usize = 0;
    while i < strs.len()
        invariant
            i <= strs@.len(),
            all == strs_bytes(strs@),
            space_kept(*old(space), *space),
            sp_moved(*old(task), *task, task.spec_frame().regs.sp),
            has_image(*task, *space, push_strs_image(img@, all, i as int).0),
            addrs@ == push_strs_image(img@, all, i as int).1,
            stack_resident(*space, lo as int, top as int),
            img@.sp <= top,
            push_strs_image(img@, all, strs@.len() as int).0.sp >= lo,
        decreases strs@.len() - i,
    {
        let ghost cur = push_strs_image(img@, all, i as int).0;
        let ghost before = *space;
        proof {
            lemma_strs_lower(img@, all, i as int, i as int);
            lemma_strs_lower(img@, all, i as int + 1, strs@.len() as int);
            assert(all[i as int] == strs@[i as int].spec_bytes());
        }
        let addr = push_one_str(task, space, strs[i], lo, top, Ghost(cur));
        addrs.push(addr);
        proof {
            lemma_same_shape_trans(old(space).areas(), before.areas(), space.areas());
        }
        i += 1;
    }
    addrs
}

/// The strings of the environment of the init task.
pub open spec fn spec_init_env() -> Seq<&'static str> {
    seq![
        "SHLVL=1",
        "PATH=/usr/sbin:/usr/bin:/sbin:/bin",
        "PWD=/",
        "GCC_EXEC_PREFIX=/riscv64-linux-musl-native/bin/../lib/gcc/",
        "COLLECT_GCC=./riscv64-linux-musl-native/bin/riscv64-linux-musl-gcc",
        "COLLECT_LTO_WRAPPER=/riscv64-linux-musl-native/bin/../libexec/gcc/riscv64-linux-musl/11.2.1/lto-wrapper",
        "COLLECT_GCC_OPTIONS='-march=rv64gc' '-mabi=lp64d' '-march=rv64imafdc' '-dumpdir' 'a.'",
        "COMPILER_PATH=/riscv64-linux-musl-native/bin/../libexec/gcc/riscv64-linux-musl/11.2.1/:/riscv64-linux-musl-native/bin/../libexec/gcc/:/riscv64-linux-musl-native/bin/../lib/gcc/riscv64-linux-musl/11.2.1/../../../../riscv64-linux-musl/bin/",
        "LIBRARY_PATH=/riscv64-linux-musl-native/bin/../lib/gcc/riscv64-linux-musl/11.2.1/:/riscv64-linux-musl-native/bin/../lib/gcc/:/riscv64-linux-musl-native/bin/../lib/gcc/riscv64-linux-musl/11.2.1/../../../../riscv64-linux-musl/lib/:/riscv64-linux-musl-native/bin/../lib/:/riscv64-linux-musl-native/bin/../usr/lib/",
    ]
}

/// The strings of the environment of the init task.
pub fn init_env() -> (env: Vec<&'static str>)
    ensures
        env@ == spec_init_env(),
{
    let env = vec![
        "SHLVL=1",
        "PATH=/usr/sbin:/usr/bin:/sbin:/bin",
        "PWD=/",
        "GCC_EXEC_PREFIX=/riscv64-linux-musl-native/bin/../lib/gcc/",
        "COLLECT_GCC=./riscv64-linux-musl-native/bin/riscv64-linux-musl-gcc",
        "COLLECT_LTO_WRAPPER=/riscv64-linux-musl-native/bin/../libexec/gcc/riscv64-linux-musl/11.2.1/lto-wrapper",
        "COLLECT_GCC_OPTIONS='-march=rv64gc' '-mabi=lp64d' '-march=rv64imafdc' '-dumpdir' 'a.'",
        "COMPILER_PATH=/riscv64-linux-musl-native/bin/../libexec/gcc/riscv64-linux-musl/11.2.1/:/riscv64-linux-musl-native/bin/../libexec/gcc/:/riscv64-linux-musl-native/bin/../lib/gcc/riscv64-linux-musl/11.2.1/../../../../riscv64-linux-musl/bin/",
        "LIBRARY_PATH=/riscv64-linux-musl-native/bin/../lib/gcc/riscv64-linux-musl/11.2.1/:/riscv64-linux-musl-native/bin/../lib/gcc/:/riscv64-linux-musl-native/bin/../lib/gcc/riscv64-linux-musl/11.2.1/../../../../riscv64-linux-musl/lib/:/riscv64-linux-musl-native/bin/../lib/:/riscv64-linux-musl-native/bin/../usr/lib/",
    ];
    assert(env@ =~= spec_init_env());
    env
}

/// Fills the user stack of the init task: see `init_stack_image`.
pub fn build_init_stack(
    task: &mut Task,
    space: &mut MemorySet,
    args: &[&str],
    auxv: &BTreeMap<u8, usize>,
    lo: usize,
    top: usize,
)
    requires
        old(space).wf(),
        args@.len() >= 1,
        old(task).spec_frame().regs.sp == top,
        stack_resident(*old(space), lo as int, top as int),
        auxv@.contains_key(AT_PHDR),
        auxv@.contains_key(AT_PHENT),
        auxv@.contains_key(AT_PHNUM),
        auxv@.contains_key(AT_PAGESZ),
        init_stack_image(
            StackImage { sp: top as int, mem: mem_of(*old(space)) },
            strs_bytes(args@),
            strs_bytes(spec_init_env()),
            auxv@,
        ).sp >= lo,
    ensures
        space_kept(*old(space), *final(space)),
        sp_moved(*old(task), *final(task), final(task).spec_frame().regs.sp),
        has_image(
            *final(task),
            *final(space),
            init_stack_image(
                StackImage { sp: top as int, mem: mem_of(*old(space)) },
                strs_bytes(args@),
                strs_bytes(spec_init_env()),
                auxv@,
            ),
        ),
{
    let ghost a = strs_bytes(args@);
    let ghost e = strs_bytes(spec_init_env());
    let ghost s0 = StackImage { sp: top as int, mem: mem_of(*space) };
    let ghost s1 = push_str_image(s0, a[0]);
    let ghost s2 = push_words_image(s1, seq![RANDOM_LO as usize, RANDOM_HI as usize]);
    let ghost s3 = push_strs_image(s2, e, e.len() as int);
    let ghost s4 = push_strs_image(s3.0, a, a.len() as int);
    let ghost s5 = push_words_image(s4.0, seq![0usize, 0usize]);
    let ghost pairs = auxv_pairs(auxv@, s2.sp as usize);
    let ghost s6 = push_pairs_image(s5, pairs, 5);
    let ghost s7 = push_words_image(s6, seq![0usize]);
    let ghost s8 = push_words_image(s7, s3.1);
    let ghost s9 = push_words_image(s8, seq![0usize]);
    let ghost s10 = push_words_image(s9, s4.1);
    proof {
        lemma_strs_lower(s2, e, e.len() as int, e.len() as int);
        lemma_strs_lower(s3.0, a, a.len() as int, a.len() as int);
        lemma_pairs_lower(s5, pairs, 5, 5);
        lemma_pairs_lower(s5, pairs, 0, 5);
        lemma_pairs_lower(s5, pairs, 1, 5);
        lemma_pairs_lower(s5, pairs, 2, 5);
        lemma_pairs_lower(s5, pairs, 3, 5);
        lemma_pairs_lower(s5, pairs, 4, 5);
        assert(a[0] == args@[0].spec_bytes());
    }
    let ghost sp0 = *space;
    let _ = push_one_str(task, space, args[0], lo, top, Ghost(s0));
    let ghost sp1 = *space;
    let random: [usize; 2] = [
        #[verifier::truncate]
        (RANDOM_LO as usize),
        #[verifier::truncate]
        (RANDOM_HI as usize),
    ];
    assert(random@ =~= seq![RANDOM_LO as usize, RANDOM_HI as usize]);
    let random_pos = push_some_words(task, space, random.as_slice(), lo, top, Ghost(s1));
    let ghost sp2 = *space;
    let env = init_env();
    let envs = push_all_strs(task, space, env.as_slice(), lo, top, Ghost(s2));
    let ghost sp3 = *space;
    let argv = push_all_strs(task, space, args, lo, top, Ghost(s3.0));
    let ghost sp4 = *space;
    let zeros: [usize; 2] = [0, 0];
    assert(zeros@ =~= seq![0usize, 0usize]);
    let _ = push_some_words(task, space, zeros.as_slice(), lo, top, Ghost(s4.0));
    let ghost sp5 = *space;
    let key_phdr: u8 = AT_PHDR;
    let key_phent: u8 = AT_PHENT;
    let key_phnum: u8 = AT_PHNUM;
    let key_pagesz: u8 = AT_PAGESZ;
    let phdr: usize = *auxv.get(&key_phdr).unwrap();
    let phent: usize = *auxv.get(&key_phent).unwrap();
    let phnum: usize = *auxv.get(&key_phnum).unwrap();
    let pagesz: usize = *auxv.get(&key_pagesz).unwrap();
    let p0: [usize; 2] = [AT_PHDR as usize, phdr];
    let p1: [usize; 2] = [AT_PHENT as usize, phent];
    let p2: [usize; 2] = [AT_PHNUM as usize, phnum];
    let p3: [usize; 2] = [AT_PAGESZ as usize, pagesz];
    let p4: [usize; 2] = [AT_RANDOM as usize, random_pos];
    assert(p0@ =~= pairs[0]);
    assert(p1@ =~= pairs[1]);
    assert(p2@ =~= pairs[2]);
    assert(p3@ =~= pairs[3]);
    assert(p4@ =~= pairs[4]);
    let _ = push_some_words(task, space, p0.as_slice(), lo, top, Ghost(push_pairs_image(s5, pairs, 0)));
    let ghost sp6a = *space;
    let _ = push_some_words(task, space, p1.as_slice(), lo, top, Ghost(push_pairs_image(s5, pairs, 1)));
    let ghost sp6b = *space;
    let _ = push_some_words(task, space, p2.as_slice(), lo, top, Ghost(push_pairs_image(s5, pairs, 2)));
    let ghost sp6c = *space;
    let _ = push_some_words(task, space, p3.as_slice(), lo, top, Ghost(push_pairs_image(s5, pairs, 3)));
    let ghost sp6d = *space;
    let _ = push_some_words(task, space, p4.as_slice(), lo, top, Ghost(push_pairs_image(s5, pairs, 4)));
    let ghost sp6 = *space;
    let null: [usize; 1] = [0];
    assert(null@ =~= seq![0usize]);
    let _ = push_some_words(task, space, null.as_slice(), lo, top, Ghost(s6));
    let ghost sp7 = *space;
    let _ = push_some_words(task, space, envs.as_slice(), lo, top, Ghost(s7));
    let ghost sp8 = *space;
    let _ = push_some_words(task, space, null.as_slice(), lo, top, Ghost(s8));
    let ghost sp9 = *space;
    let _ = push_some_words(task, space, argv.as_slice(), lo, top, Ghost(s9));
    let ghost sp10 = *space;
    let argc: [usize; 1] = [argv.len()];
    assert(argc@ =~= seq![a.len() as usize]);
    let _ = push_some_words(task, space, argc.as_slice(), lo, top, Ghost(s10));
    proof {
        lemma_same_shape_trans(sp0.areas(), sp1.areas(), sp2.areas());
        lemma_same_shape_trans(sp0.areas(), sp2.areas(), sp3.areas());
        lemma_same_shape_trans(sp0.areas(), sp3.areas(), sp4.areas());
        lemma_same_shape_trans(sp0.areas(), sp4.areas(), sp5.areas());
        lemma_same_shape_trans(sp0.areas(), sp5.areas(), sp6a.areas());
        lemma_same_shape_trans(sp0.areas(), sp6a.areas(), sp6b.areas());
        lemma_same_shape_trans(sp0.areas(), sp6b.areas(), sp6c.areas());
        lemma_same_shape_trans(sp0.areas(), sp6c.areas(), sp6d.areas());
        lemma_same_shape_trans(sp0.areas(), sp6d.areas(), sp6.areas());
        lemma_same_shape_trans(sp0.areas(), sp6.areas(), sp7.areas());
        lemma_same_shape_trans(sp0.areas(), sp7.areas(), sp8.areas());
        lemma_same_shape_trans(sp0.areas(), sp8.areas(), sp9.areas());
        lemma_same_shape_trans(sp0.areas(), sp9.areas(), sp10.areas());
        lemma_same_shape_trans(sp0.areas(), sp10.areas(), space.areas());
    }
}

/// An ELF image that is to become the init task.
pub struct Loader {
    pub elf: ElfImage,
}

/// The index of the first INTERP segment from `from` on, or -1.
pub open spec fn spec_interp(elf: ElfImage, from: int) -> int
    decreases elf.segments@.len() - from,
{
    if from < 0 || from >= elf.segments@.len() {
        -1
    } else if elf.segments@[from].kind == SegmentType::Interp {
        from
    } else {
        spec_interp(elf, from + 1)
    }
}

/// `s` without the zero bytes at its end.
pub open spec fn trim_end(s: Seq<u8>) -> Seq<u8>
    decreases s.len(),
{
    if s.len() > 0 && s.last() == 0 {
        trim_end(s.drop_last())
    } else {
        s
    }
}

/// `s` without the zero bytes at its start.
pub open spec fn trim_start(s: Seq<u8>) -> Seq<u8>
    decreases s.len(),
{
    if s.len() > 0 && s[0] == 0 {
        trim_start(s.drop_first())
    } else {
        s
    }
}

/// The areas that loading an image leaves in an address space without
/// areas have no backend.
pub proof fn lemma_loaded_unbacked(
    fresh: MemorySet,
    mid: MemorySet,
    after: MemorySet,
    elf: ElfImage,
    b: int,
    f0: int,
    nfiles: int,
)
    requires
        0 <= b,
        fresh.areas().len() == 0,
        loaded_upto(
            fresh.areas(),
            mid.areas(),
            elf.segments@,
            b,
            elf.input@,
            f0,
            elf.segments@.len() as int,
        ),
        same_shape(mid.areas(), after.areas()),
    ensures
        crate::memory_set::areas_backed(after.areas(), nfiles),
        after.areas().len() == load_count(elf.segments@, elf.segments@.len() as int),
{
    reveal(loaded_upto);
    let segs = elf.segments@;
    assert forall|i: int| 0 <= i < after.areas().len() implies (#[trigger] after.areas()[i]).backed_by(
        nfiles,
    ) by {
        lemma_loaded_index(segs, segs.len() as int, i);
        let j = choose|j: int| 0 <= j < segs.len() && segs[j].is_load() && load_count(segs, j) == i;
        assert(segs[j].is_load());
        reveal(segment_loaded);
        assert(mid.areas()[i].backend.is_none());
    }
}

/// How the address space of the init task is built. The address space
/// `fresh` is created with the kernel regions mapped. The image is loaded
/// into it, which gives first `mid` and then, with the relocations applied,
/// `mapped`. Then, after the kernel stack has been taken, the user stack is
/// created as an area of zero-filled pages, which gives `stacked`. `f0` is
/// the first free frame before, `f1` the first one after.
pub open spec fn space_built(
    elf: ElfImage,
    regions: Seq<MemRegion>,
    f0: int,
    f1: int,
    fresh: MemorySet,
    mid: MemorySet,
    mapped: MemorySet,
    stacked: MemorySet,
) -> bool {
    &&& fresh.wf()
    &&& fresh.areas().len() == 0
    &&& fresh.kernel_regions() == regions
    &&& fresh.spec_page_table().root() == f0
    &&& map_elf_post(fresh, mid, mapped, elf, f0 + 4096)
    &&& mapped.spec_entry() == elf.entry + spec_base(elf.segments@, elf.segments@.len() as int)
    &&& stacked.wf()
    &&& stacked.kernel_regions() == regions
    &&& stacked.spec_entry() == mapped.spec_entry()
    &&& stacked.spec_page_table().root() == f0
    &&& stacked.areas().drop_last() == mapped.areas()
    &&& stacked.areas().len() == mapped.areas().len() + 1
    &&& is_loaded_region(
        stacked.areas().last(),
        USTACK_BOTTOM as int,
        TASK_STACK_SIZE as int / 4096,
        MappingFlags { read: true, write: true, execute: false, user: true },
        None,
        Seq::<u8>::empty(),
        f1 - TASK_STACK_SIZE,
    )
    &&& f1 == f0 + 4096 * (1 + load_pages(
        elf.segments@,
        spec_base(elf.segments@, elf.segments@.len() as int) as int,
        elf.segments@.len() as int,
    ) + 2 * (TASK_STACK_SIZE as int / 4096))
}

/// What loading the init task does. The address space of the task is built
/// as `space_built` says, and the hart takes over its page table and opens
/// user memory to the kernel. The task gets the next task number, a kernel
/// stack, and a trap frame that starts the program at its entry point on
/// the user stack. The user stack is filled as `init_stack_image` says. The
/// address space is added to those of the kernel, and the task, which is
/// ready, refers to it.
pub open spec fn load_post(
    pre: Kernel,
    post: Kernel,
    task: Task,
    elf: ElfImage,
    args: Seq<Seq<u8>>,
    regions: Seq<MemRegion>,
    fresh: MemorySet,
    mid: MemorySet,
    mapped: MemorySet,
    stacked: MemorySet,
) -> bool {
    let top = USTACK_BOTTOM + TASK_STACK_SIZE;
    let space = post.spaces@.last();
    let image = init_stack_image(
        StackImage { sp: top, mem: mem_of(stacked) },
        args,
        strs_bytes(spec_init_env()),
        spec_auxv(elf),
    );
    &&& post == (Kernel {
        scheduler: post.scheduler,
        spaces: post.spaces,
        frames: post.frames,
        hart: post.hart,
        ..pre
    })
    &&& post.scheduler.next_id == pre.scheduler.next_id + 1
    &&& post.scheduler.current == pre.scheduler.current
    &&& post.scheduler.ready == pre.scheduler.ready
    &&& post.hart == (crate::scheduler::Hart {
        satp: fresh.spec_page_table().root(),
        sstatus: pre.hart.sstatus | SSTATUS_SUM,
        ..pre.hart
    })
    &&& post.spaces@.len() == pre.spaces@.len() + 1
    &&& post.spaces@.drop_last() == pre.spaces@
    &&& space_built(
        elf,
        regions,
        pre.frames.next_paddr() as int,
        post.frames.next_paddr() as int,
        fresh,
        mid,
        mapped,
        stacked,
    )
    &&& space_kept(stacked, space)
    &&& task.pid == pre.scheduler.next_id
    &&& task.tid == pre.scheduler.next_id
    &&& task.state == TaskState::Ready
    &&& task.ctx == TaskContext::spec_zero()
    &&& task.memory_set == pre.spaces@.len()
    &&& task.ustack == top
    &&& task.fd_table@ == seq![
        Some(crate::fd::FileRef::Stdin),
        Some(crate::fd::FileRef::Stdout),
        Some(crate::fd::FileRef::Stderr),
    ]
    &&& task.kstack.wf()
    &&& task.kstack.spec_size() == TASK_STACK_SIZE
    &&& task.kstack.spec_bottom() == post.frames.next_paddr() - 2 * TASK_STACK_SIZE
    &&& task.spec_frame() == (TrapFrame {
        regs: GeneralRegisters {
            sp: image.sp as usize,
            gp: pre.hart.gp,
            tp: pre.hart.tp,
            ..GeneralRegisters::spec_zero()
        },
        sepc: mapped.spec_entry(),
        sstatus: spec_user_sstatus(pre.hart.sstatus | SSTATUS_SUM),
    })
    &&& mem_of(space) == image.mem
    &&& post.frames.end_paddr() == pre.frames.end_paddr()
    &&& post.frames.returned() == pre.frames.returned()
}

/// Where the stack pointer is after the strings of `strs` below `upto` have
/// been pushed.
pub open spec fn strs_sp(sp: int, strs: Seq<Seq<u8>>, upto: int) -> int
    decreases upto,
{
    if upto <= 0 {
        sp
    } else {
        strs_sp(sp, strs, upto - 1) - strs[upto - 1].len() - 1
    }
}

/// Where the stack pointer of the init task ends up: see `init_stack_image`.
pub open spec fn init_stack_sp(top: int, args: Seq<Seq<u8>>, envs: Seq<Seq<u8>>) -> int {
    let s1 = top - args[0].len() - 1;
    let s2 = sp_after_words(s1, 2);
    let s3 = strs_sp(s2, envs, envs.len() as int);
    let s4 = strs_sp(s3, args, args.len() as int);
    let s5 = sp_after_words(s4, 2);
    let s6 = sp_after_words(
        sp_after_words(sp_after_words(sp_after_words(sp_after_words(s5, 2), 2), 2), 2),
        2,
    );
    let s7 = sp_after_words(s6, 1);
    let s8 = sp_after_words(s7, envs.len() as int);
    let s9 = sp_after_words(s8, 1);
    let s10 = sp_after_words(s9, args.len() as int);
    sp_after_words(s10, 1)
}

/// Where the stack pointer goes does not depend on what the memory holds.
pub proof fn lemma_strs_sp(s: StackImage, strs: Seq<Seq<u8>>, upto: int)
    requires
        0 <= upto,
    ensures
        push_strs_image(s, strs, upto).0.sp == strs_sp(s.sp, strs, upto),
        push_strs_image(s, strs, upto).1.len() == upto,
        strs_sp(s.sp, strs, upto) <= s.sp,
    decreases upto,
{
    if upto > 0 {
        lemma_strs_sp(s, strs, upto - 1);
    }
}

/// Where the stack pointer goes does not depend on what the memory holds.
pub proof fn lemma_init_stack_sp(
    s: StackImage,
    args: Seq<Seq<u8>>,
    envs: Seq<Seq<u8>>,
    auxv: Map<u8, usize>,
)
    ensures
        init_stack_image(s, args, envs, auxv).sp == init_stack_sp(s.sp, args, envs),
{
    let s1 = push_str_image(s, args[0]);
    let s2 = push_words_image(s1, seq![RANDOM_LO as usize, RANDOM_HI as usize]);
    lemma_strs_sp(s2, envs, envs.len() as int);
    let s3 = push_strs_image(s2, envs, envs.len() as int);
    lemma_strs_sp(s3.0, args, args.len() as int);
    let s4 = push_strs_image(s3.0, args, args.len() as int);
    let s5 = push_words_image(s4.0, seq![0usize, 0usize]);
    let pairs = auxv_pairs(auxv, s2.sp as usize);
    assert(push_pairs_image(s5, pairs, 5).sp == sp_after_words(
        sp_after_words(sp_after_words(sp_after_words(sp_after_words(s5.sp, 2), 2), 2), 2),
        2,
    )) by {
        reveal_with_fuel(push_pairs_image, 6);
    }
}

/// When the init task can be loaded. The image has no INTERP segment and
/// can be loaded into an address space that holds the kernel regions only,
/// with frames to spare for the root of the page table and the two stacks.
/// The user stack lies apart from the kernel regions and from the areas of
/// the image, and has room for what is pushed on it. There is a task number
/// left.
pub open spec fn can_load(pre: Kernel, elf: ElfImage, args: Seq<Seq<u8>>, regions: Seq<MemRegion>) -> bool {
    let top = USTACK_BOTTOM + TASK_STACK_SIZE;
    let base = spec_base(elf.segments@, elf.segments@.len() as int) as int;
    let spare = 1 + 2 * (TASK_STACK_SIZE as int / 4096);
    &&& kernel_ok(regions)
    &&& args.len() >= 1
    &&& spec_interp(elf, 0) < 0
    &&& pre.scheduler.next_id < usize::MAX
    &&& pre.frames.spec_free_frames() >= spare
    &&& image_loadable(elf, regions, pre.frames.spec_free_frames() - spare)
    &&& forall|r: int|
        0 <= r < regions.len() ==> (#[trigger] regions[r]).apart(USTACK_BOTTOM as int, top)
    &&& forall|k: int|
        0 <= k < elf.segments@.len() && (#[trigger] elf.segments@[k]).is_load()
            ==> elf.segments@[k].hi(base) <= USTACK_BOTTOM || top <= elf.segments@[k].lo(base)
    &&& init_stack_sp(top, args, strs_bytes(spec_init_env())) >= USTACK_BOTTOM
}

/// An image that can be loaded with frames to spare can be loaded.
pub proof fn lemma_loadable_with_more(elf: ElfImage, regions: Seq<MemRegion>, fewer: int, more: int)
    requires
        fewer <= more,
        image_loadable(elf, regions, fewer),
    ensures
        image_loadable(elf, regions, more),
        load_pages(
            elf.segments@,
            spec_base(elf.segments@, elf.segments@.len() as int) as int,
            elf.segments@.len() as int,
        ) <= fewer,
{
    reveal(segments_loadable);
}

/// Whether the regions are acceptable: see `kernel_ok`.
pub fn regions_ok(regions: &[MemRegion]) -> (r: bool)
    ensures
        r == kernel_ok(regions@),
{
    let mut i: usize = 0;
    while i < regions.len()
        invariant
            i <= regions@.len(),
            forall|a: int| 0 <= a < i ==> (#[trigger] regions@[a]).ok(),
            forall|a: int, b: int|
                0 <= a < i && 0 <= b < i && a != b ==> (#[trigger] regions@[a]).apart(
                    (#[trigger] regions@[b]).vaddr as int,
                    regions@[b].vaddr + regions@[b].size,
                ),
        decreases regions@.len() - i,
    {
        let r = &regions[i];
        if r.vaddr % 4096 != 0 || r.paddr % 4096 != 0 || r.size % 4096 != 0 || r.size > usize::MAX
            - r.vaddr || r.size > usize::MAX - r.paddr {
            assert(!regions@[i as int].ok());
            return false;
        }
        let mut j: usize = 0;
        while j < i
            invariant
                j <= i < regions@.len(),
                *r == regions@[i as int],
                regions@[i as int].ok(),
                forall|a: int| 0 <= a < i ==> (#[trigger] regions@[a]).ok(),
                forall|b: int|
                    0 <= b < j ==> (#[trigger] regions@[b]).apart(
                        regions@[i as int].vaddr as int,
                        regions@[i as int].vaddr + regions@[i as int].size,
                    ),
            decreases i - j,
        {
            let q = &regions[j];
            assert(regions@[j as int].ok());
            if !(q.vaddr + q.size <= r.vaddr || r.vaddr + r.size <= q.vaddr) {
                assert(!regions@[j as int].apart(
                    regions@[i as int].vaddr as int,
                    regions@[i as int].vaddr + regions@[i as int].size,
                ));
                return false;
            }
            j += 1;
        }
        i += 1;
    }
    true
}

/// Where the stack pointer is after the strings `strs` have been pushed;
/// `None` where it would fall below `lo`.
fn strs_room(sp: usize, strs: &[&str], lo: usize) -> (r: Option<usize>)
    ensures
        match r {
            Some(at) => at == strs_sp(sp as int, strs_bytes(strs@), strs@.len() as int) && at >= lo,
            None => strs_sp(sp as int, strs_bytes(strs@), strs@.len() as int) < lo,
        },
{
    let ghost all = strs_bytes(strs@);
    let mut at: usize = sp;
    let mut i: usize = 0;
    if at < lo {
        proof {
            lemma_strs_lower_sp(sp as int, all, 0, strs@.len() as int);
        }
        return None;
    }
    while i < strs.len()
        invariant
            i <= strs@.len(),
            all == strs_bytes(strs@),
            at == strs_sp(sp as int, all, i as int),
            at >= lo,
        decreases strs@.len() - i,
    {
        let len: usize = strs[i].as_bytes().len();
        assert(all[i as int] == strs@[i as int].spec_bytes());
        if len >= at || at - len - 1 < lo {
            proof {
                lemma_strs_lower_sp(sp as int, all, i + 1, strs@.len() as int);
            }
            return None;
        }
        at = at - len - 1;
        i += 1;
    }
    Some(at)
}

/// Pushing more strings lowers the stack pointer further.
pub proof fn lemma_strs_lower_sp(sp: int, strs: Seq<Seq<u8>>, lo: int, hi: int)
    requires
        0 <= lo <= hi,
    ensures
        strs_sp(sp, strs, hi) <= strs_sp(sp, strs, lo),
    decreases hi,
{
    if lo < hi {
        lemma_strs_lower_sp(sp, strs, lo, hi - 1);
    }
}

/// Where the stack pointer is after `n` words have been pushed; `None`
/// where it would fall below `lo`.
fn words_room(sp: usize, n: usize, lo: usize) -> (r: Option<usize>)
    ensures
        match r {
            Some(at) => at == sp_after_words(sp as int, n as int) && at >= lo,
            None => sp_after_words(sp as int, n as int) < lo,
        },
        sp_after_words(sp as int, n as int) <= sp,
{
    if n > usize::MAX / 8 || n * 8 > sp {
        return None;
    }
    let at: usize = (sp - n * 8) - (sp - n * 8) % 8;
    if at < lo {
        None
    } else {
        Some(at)
    }
}

/// Whether the user stack from `lo` to `top` has room for what the init
/// task finds on it.
pub fn stack_has_room(top: usize, args: &[&str], lo: usize) -> (r: bool)
    requires
        args@.len() >= 1,
    ensures
        r == (init_stack_sp(top as int, strs_bytes(args@), strs_bytes(spec_init_env())) >= lo),
{
    let env = init_env();
    let ghost a = strs_bytes(args@);
    let ghost e = strs_bytes(spec_init_env());
    let first: usize = args[0].as_bytes().len();
    assert(a[0] == args@[0].spec_bytes());
    proof {
        let s1 = top - a[0].len() - 1;
        let s2 = sp_after_words(s1, 2);
        let s3 = strs_sp(s2, e, e.len() as int);
        let s4 = strs_sp(s3, a, a.len() as int);
        lemma_strs_lower_sp(s2, e, 0, e.len() as int);
        lemma_strs_lower_sp(s3, a, 0, a.len() as int);
    }
    if first >= top || top - first - 1 < lo {
        return false;
    }
    let s1: usize = top - first - 1;
    let s2 = match words_room(s1, 2, lo) {
        Some(at) => at,
        None => {
            return false;
        },
    };
    let s3 = match strs_room(s2, env.as_slice(), lo) {
        Some(at) => at,
        None => {
            return false;
        },
    };
    let s4 = match strs_room(s3, args, lo) {
        Some(at) => at,
        None => {
            return false;
        },
    };
    let s5 = match words_room(s4, 2, lo) {
        Some(at) => at,
        None => {
            return false;
        },
    };
    let p1 = match words_room(s5, 2, lo) {
        Some(at) => at,
        None => {
            return false;
        },
    };
    let p2 = match words_room(p1, 2, lo) {
        Some(at) => at,
        None => {
            return false;
        },
    };
    let p3 = match words_room(p2, 2, lo) {
        Some(at) => at,
        None => {
            return false;
        },
    };
    let p4 = match words_room(p3, 2, lo) {
        Some(at) => at,
        None => {
            return false;
        },
    };
    let s6 = match words_room(p4, 2, lo) {
        Some(at) => at,
        None => {
            return false;
        },
    };
    let s7 = match words_room(s6, 1, lo) {
        Some(at) => at,
        None => {
            return false;
        },
    };
    let s8 = match words_room(s7, env.len(), lo) {
        Some(at) => at,
        None => {
            return false;
        },
    };
    let s9 = match words_room(s8, 1, lo) {
        Some(at) => at,
        None => {
            return false;
        },
    };
    let s10 = match words_room(s9, args.len(), lo) {
        Some(at) => at,
        None => {
            return false;
        },
    };
    words_room(s10, 1, lo).is_some()
}

impl Loader {
    /// A loader for the parsed image `elf`.
    pub fn new(elf: ElfImage) -> (l: Self)
        ensures
            l.elf == elf,
    {
        Loader { elf }
    }

    /// Whether the path of the interpreter can be read: there is no INTERP
    /// segment, or the bytes of the first one lie in the file.
    pub open spec fn interp_ok(&self) -> bool {
        let i = spec_interp(self.elf, 0);
        i >= 0 ==> self.elf.segments@[i].offset + self.elf.segments@[i].file_size
            <= self.elf.input@.len()
    }

    /// Whether the path of the interpreter can be read: see `interp_ok`.
    pub fn interp_check(&self) -> (r: bool)
        ensures
            r == self.interp_ok(),
    {
        let mut k: usize = 0;
        while k < self.elf.segments.len()
            invariant
                k <= self.elf.segments@.len(),
                spec_interp(self.elf, 0) == spec_interp(self.elf, k as int),
            decreases self.elf.segments@.len() - k,
        {
            let ph = &self.elf.segments[k];
            if ph.kind == SegmentType::Interp {
                return ph.offset as u128 + ph.file_size as u128 <= self.elf.input.len() as u128;
            }
            k += 1;
        }
        true
    }

    /// The path of the interpreter that the image asks for: the bytes of its
    /// first INTERP segment, without the zero bytes at both ends. `None`
    /// where the image has no INTERP segment. An image with an interpreter
    /// is not loaded itself: the interpreter is, with its path put in front
    /// of the arguments.
    pub fn interp_path(&self) -> (r: Option<Vec<u8>>)
        requires
            self.interp_ok(),
        ensures
            r.is_some() == (spec_interp(self.elf, 0) >= 0),
            r.is_some() ==> r.unwrap()@ == trim_start(
                trim_end(
                    self.elf.input@.subrange(
                        self.elf.segments@[spec_interp(self.elf, 0)].offset as int,
                        self.elf.segments@[spec_interp(self.elf, 0)].offset
                            + self.elf.segments@[spec_interp(self.elf, 0)].file_size,
                    ),
                ),
            ),
    {
        let mut k: usize = 0;
        while k < self.elf.segments.len()
            invariant
                k <= self.elf.segments@.len(),
                self.interp_ok(),
                spec_interp(self.elf, 0) == spec_interp(self.elf, k as int),
            decreases self.elf.segments@.len() - k,
        {
            let ph = &self.elf.segments[k];
            if ph.kind == SegmentType::Interp {
                let len: usize = self.elf.input.len();
                let from: usize = ph.offset as usize;
                let to: usize = (ph.offset + ph.file_size) as usize;
                let ghost raw = self.elf.input@.subrange(from as int, to as int);
                let mut hi: usize = to;
                while hi > from && self.elf.input[hi - 1] == 0
                    invariant
                        from <= hi <= to <= self.elf.input@.len(),
                        raw == self.elf.input@.subrange(from as int, to as int),
                        trim_end(raw) == trim_end(self.elf.input@.subrange(from as int, hi as int)),
                    decreases hi,
                {
                    proof {
                        let cur = self.elf.input@.subrange(from as int, hi as int);
                        assert(cur.last() == self.elf.input@[hi - 1]);
                        assert(cur.drop_last() =~= self.elf.input@.subrange(from as int, hi - 1));
                    }
                    hi -= 1;
                }
                proof {
                    let cur = self.elf.input@.subrange(from as int, hi as int);
                    if hi > from {
                        assert(cur.last() == self.elf.input@[hi - 1]);
                    }
                    assert(trim_end(cur) == cur);
                }
                let mut lo: usize = from;
                while lo < hi && self.elf.input[lo] == 0
                    invariant
                        from <= lo <= hi <= self.elf.input@.len(),
                        trim_start(self.elf.input@.subrange(from as int, hi as int)) == trim_start(
                            self.elf.input@.subrange(lo as int, hi as int),
                        ),
                    decreases hi - lo,
                {
                    proof {
                        let cur = self.elf.input@.subrange(lo as int, hi as int);
                        assert(cur[0] == self.elf.input@[lo as int]);
                        assert(cur.drop_first() =~= self.elf.input@.subrange(lo + 1, hi as int));
                    }
                    lo += 1;
                }
                proof {
                    let cur = self.elf.input@.subrange(lo as int, hi as int);
                    if lo < hi {
                        assert(cur[0] == self.elf.input@[lo as int]);
                    }
                    assert(trim_start(cur) == cur);
                }
                return Some(crate::file::copy_range(self.elf.input.as_slice(), lo, hi));
            }
            k += 1;
        }
        None
    }

    /// Whether the init task can be loaded: see `can_load`.
    pub fn can_load_check(&self, args: &[&str], regions: &[MemRegion], kernel: &Kernel) -> (r: bool)
        requires
            kernel.wf(),
        ensures
            r == can_load(*kernel, self.elf, strs_bytes(args@), regions@),
    {
        let top: usize = USTACK_BOTTOM + TASK_STACK_SIZE;
        if !regions_ok(regions) {
            return false;
        }
        if args.len() < 1 {
            return false;
        }
        let mut k: usize = 0;
        while k < self.elf.segments.len()
            invariant
                k <= self.elf.segments@.len(),
                spec_interp(self.elf, 0) == spec_interp(self.elf, k as int),
            decreases self.elf.segments@.len() - k,
        {
            if self.elf.segments[k].kind == SegmentType::Interp {
                return false;
            }
            k += 1;
        }
        if kernel.scheduler.next_id == usize::MAX {
            return false;
        }
        let free: usize = kernel.frames.free_frames();
        let spare: usize = 1 + 2 * (TASK_STACK_SIZE / 4096);
        if free < spare {
            return false;
        }
        if !self.elf.loadable(regions, free - spare) {
            return false;
        }
        if !regions_apart(regions, USTACK_BOTTOM, top) {
            return false;
        }
        let base: usize = self.elf.base_addr();
        let input_len: usize = self.elf.input.len();
        proof {
            reveal(segments_loadable);
        }
        let ghost segs = self.elf.segments@;
        let mut j: usize = 0;
        while j < self.elf.segments.len()
            invariant
                j <= segs.len(),
                segs == self.elf.segments@,
                input_len == self.elf.input@.len(),
                top == USTACK_BOTTOM + TASK_STACK_SIZE,
                base == spec_base(segs, segs.len() as int),
                forall|i: int|
                    0 <= i < segs.len() && (#[trigger] segs[i]).is_load() ==> segs[i].ok(
                        base as int,
                        input_len as int,
                    ),
                forall|i: int|
                    0 <= i < j && (#[trigger] segs[i]).is_load() ==> segs[i].hi(base as int)
                        <= USTACK_BOTTOM || top <= segs[i].lo(base as int),
            decreases segs.len() - j,
        {
            let ph = &self.elf.segments[j];
            if ph.kind == SegmentType::Load {
                assert(segs[j as int].is_load());
                let (lo, hi, _) = ph.area_range(base, input_len);
                if !(hi <= USTACK_BOTTOM || top <= lo) {
                    return false;
                }
            }
            j += 1;
        }
        stack_has_room(top, args, USTACK_BOTTOM)
    }

    /// Builds the init task where it can be loaded, and changes nothing
    /// where it cannot: see `can_load` and `load_post`.
    pub fn try_load(self, args: &[&str], regions: &[MemRegion], kernel: &mut Kernel) -> (r: Option<Task>)
        requires
            old(kernel).wf(),
        ensures
            final(kernel).wf(),
            r.is_some() == can_load(*old(kernel), self.elf, strs_bytes(args@), regions@),
            r.is_none() ==> *final(kernel) == *old(kernel),
            r.is_some() ==> final(kernel).scheduler.admits(r.unwrap()),
            r.is_some() ==> r.unwrap().wf(final(kernel).spaces@.len() as int) && exists|
                fresh: MemorySet,
                mid: MemorySet,
                mapped: MemorySet,
                stacked: MemorySet,
            | #[trigger]
                load_post(
                    *old(kernel),
                    *final(kernel),
                    r.unwrap(),
                    self.elf,
                    strs_bytes(args@),
                    regions@,
                    fresh,
                    mid,
                    mapped,
                    stacked,
                ),
    {
        if self.can_load_check(args, regions, kernel) {
            Some(self.load(args, regions, kernel))
        } else {
            None
        }
    }

    /// Builds the address space of the init task: see `space_built`. Returns
    /// the address space, the kernel stack, and the auxiliary vector.
    pub fn build_space(&self, regions: &[MemRegion], frames: &mut FrameAllocator) -> (r: (
        MemorySet,
        TaskStack,
        BTreeMap<u8, usize>,
    ))
        requires
            old(frames).wf(),
            kernel_ok(regions@),
            old(frames).spec_free_frames() >= 1 + 2 * (TASK_STACK_SIZE as int / 4096),
            image_loadable(
                self.elf,
                regions@,
                old(frames).spec_free_frames() - 1 - 2 * (TASK_STACK_SIZE as int / 4096),
            ),
            forall|q: int|
                0 <= q < regions@.len() ==> (#[trigger] regions@[q]).apart(
                    USTACK_BOTTOM as int,
                    USTACK_BOTTOM + TASK_STACK_SIZE,
                ),
            forall|k: int|
                0 <= k < self.elf.segments@.len() && (#[trigger] self.elf.segments@[k]).is_load()
                    ==> self.elf.segments@[k].hi(
                    spec_base(self.elf.segments@, self.elf.segments@.len() as int) as int,
                ) <= USTACK_BOTTOM || USTACK_BOTTOM + TASK_STACK_SIZE <= self.elf.segments@[k].lo(
                    spec_base(self.elf.segments@, self.elf.segments@.len() as int) as int,
                ),
        ensures
            final(frames).wf(),
            final(frames).end_paddr() == old(frames).end_paddr(),
            final(frames).returned() == old(frames).returned(),
            exists|fresh: MemorySet, mid: MemorySet, mapped: MemorySet| #[trigger]
                space_built(
                    self.elf,
                    regions@,
                    old(frames).next_paddr() as int,
                    final(frames).next_paddr() as int,
                    fresh,
                    mid,
                    mapped,
                    r.0,
                ),
            r.1.wf(),
            r.1.spec_size() == TASK_STACK_SIZE,
            r.1.spec_frame() == TrapFrame::spec_zero(),
            r.1.spec_bottom() == final(frames).next_paddr() - 2 * TASK_STACK_SIZE,
            r.2@ == spec_auxv(self.elf),
            stack_resident(r.0, USTACK_BOTTOM as int, USTACK_BOTTOM + TASK_STACK_SIZE),
            forall|n: int| crate::memory_set::areas_backed(r.0.areas(), n),
    {
        let ghost base = spec_base(self.elf.segments@, self.elf.segments@.len() as int) as int;
        let ghost f0 = frames.next_paddr() as int;
        let ghost spare = 1 + 2 * (TASK_STACK_SIZE as int / 4096);
        let ghost free0 = frames.spec_free_frames() as int;
        proof {
            lemma_load_counts(self.elf.segments@, base, 0, self.elf.segments@.len() as int);
        }
        let mut memory_set = MemorySet::new_with_kernel_mapped(regions, frames);
        let ghost fresh = memory_set;
        proof {
            lemma_loadable_with_more(self.elf, regions@, free0 - spare, frames.spec_free_frames() as int);
            crate::elf::lemma_fresh_loadable(fresh, self.elf, frames.spec_free_frames() as int);
        }
        let auxv = memory_set.map_elf(&self.elf, frames);
        let ghost mapped = memory_set;
        let ghost mid = choose|mid: MemorySet| #[trigger] map_elf_post(fresh, mid, mapped, self.elf, f0 + 4096);
        let kstack = TaskStack::alloc_stack(TASK_STACK_SIZE, frames);
        let top: usize = USTACK_BOTTOM + TASK_STACK_SIZE;
        proof {
            lemma_loaded_unbacked(fresh, mid, mapped, self.elf, base, f0 + 4096, 0);
            reveal(loaded_upto);
            assert forall|i: int| 0 <= i < mapped.areas().len() implies crate::memory_set::area_apart(
                #[trigger] mapped.areas()[i],
                USTACK_BOTTOM as int,
                top as int,
            ) by {
                let segs = self.elf.segments@;
                lemma_loaded_index(segs, segs.len() as int, i);
                let j = choose|j: int| 0 <= j < segs.len() && segs[j].is_load() && load_count(segs, j) == i;
                assert(segs[j].is_load());
                assert(mid.areas()[i].vaddr == segs[j].lo(base));
                assert(mid.areas()[i].spec_end_va() == segs[j].hi(base));
                assert(mapped.areas()[i].vaddr == mid.areas()[i].vaddr);
            }
        }
        let nothing: [u8; 0] = [];
        memory_set.new_region(
            USTACK_BOTTOM,
            TASK_STACK_SIZE,
            MappingFlags::user_rwx(true, true, false),
            Some(nothing.as_slice()),
            None,
            frames,
        );
        proof {
            let stacked = memory_set;
            assert(stacked.areas().drop_last() =~= mapped.areas());
            assert(nothing@ =~= Seq::<u8>::empty());
            assert forall|x: int| USTACK_BOTTOM <= x < top implies (#[trigger] stacked.spec_byte_at(
                x,
            )).is_some() by {
                let n = stacked.areas().len() as int - 1;
                assert(stacked.areas()[n].covers(x));
                crate::memory_set::lemma_find_unique(stacked, n, x);
                assert(stacked.areas()[n].pages@[stacked.areas()[n].slot_of(x)].is_some());
            }
            assert forall|n: int| crate::memory_set::areas_backed(stacked.areas(), n) by {
                assert forall|i: int| 0 <= i < stacked.areas().len() implies (#[trigger] stacked.areas()[i]).backed_by(
                    n,
                ) by {
                    if i < mapped.areas().len() {
                        assert(stacked.areas()[i] == stacked.areas().drop_last()[i]);
                        assert(mapped.areas()[i].backed_by(0));
                    }
                }
            }
        }
        let r = (memory_set, kstack, auxv);
        assert(space_built(
            self.elf,
            regions@,
            old(frames).next_paddr() as int,
            frames.next_paddr() as int,
            fresh,
            mid,
            mapped,
            r.0,
        ));
        r
    }

    /// Builds the init task from the image, with the arguments `args`; see
    /// `load_post`. `regions` are the kernel regions of the platform. The
    /// caller starts the scheduler with the task, whose number no task of
    /// the scheduler has.
    pub fn load(self, args: &[&str], regions: &[MemRegion], kernel: &mut Kernel) -> (task: Task)
        requires
            old(kernel).wf(),
            can_load(*old(kernel), self.elf, strs_bytes(args@), regions@),
        ensures
            final(kernel).wf(),
            task.wf(final(kernel).spaces@.len() as int),
            final(kernel).scheduler.admits(task),
            exists|fresh: MemorySet, mid: MemorySet, mapped: MemorySet, stacked: MemorySet| #[trigger]
                load_post(
                    *old(kernel),
                    *final(kernel),
                    task,
                    self.elf,
                    strs_bytes(args@),
                    regions@,
                    fresh,
                    mid,
                    mapped,
                    stacked,
                ),
    {
        let ghost pre = *kernel;
        let ghost f0 = kernel.frames.next_paddr() as int;
        let (mut memory_set, mut kstack, auxv) = self.build_space(regions, &mut kernel.frames);
        let ghost stacked = memory_set;
        let ghost f1 = kernel.frames.next_paddr() as int;
        let ghost (fresh, mid, mapped) = choose|fresh: MemorySet, mid: MemorySet, mapped: MemorySet| #[trigger]
            space_built(self.elf, regions@, f0, f1, fresh, mid, mapped, stacked);
        kernel.hart.satp = memory_set.page_table_root_ppn();
        kernel.hart.sstatus = kernel.hart.sstatus | SSTATUS_SUM;
        let top: usize = USTACK_BOTTOM + TASK_STACK_SIZE;
        let pid = kernel.scheduler.alloc_id();
        let trap_frame = gen_trap_frame(
            top,
            memory_set.entry(),
            kernel.hart.gp,
            kernel.hart.tp,
            kernel.hart.sstatus,
        );
        kstack.set_trap_frame(trap_frame);
        let id: usize = kernel.spaces.len();
        let mut task = Task {
            pid,
            tid: pid,
            state: TaskState::Ready,
            ctx: TaskContext::new(),
            memory_set: id,
            kstack,
            ustack: top,
            fd_table: FdList::default(),
        };
        proof {
            lemma_init_stack_sp(
                StackImage { sp: top as int, mem: mem_of(stacked) },
                strs_bytes(args@),
                strs_bytes(spec_init_env()),
                auxv@,
            );
        }
        build_init_stack(&mut task, &mut memory_set, args, &auxv, USTACK_BOTTOM, top);
        proof {
            crate::memory_set::lemma_shape_backed(
                stacked.areas(),
                memory_set.areas(),
                kernel.fs.files().len() as int,
            );
        }
        kernel.spaces.push(memory_set);
        proof {
            assert(kernel.spaces@.drop_last() =~= pre.spaces@);
            assert forall|i: int| 0 <= i < kernel.spaces@.len() implies (#[trigger] kernel.spaces@[i]).wf()
                && crate::memory_set::areas_backed(
                kernel.spaces@[i].areas(),
                kernel.fs.files().len() as int,
            ) by {
                if i < pre.spaces@.len() {
                    assert(kernel.spaces@[i] == pre.spaces@[i]);
                }
            }
            assert forall|i: int| 0 <= i < kernel.scheduler.queue().len() implies (#[trigger] kernel.scheduler.queue()[i]).wf(
                kernel.spaces@.len() as int,
            ) by {
                assert(pre.scheduler.queue()[i].wf(pre.spaces@.len() as int));
            }
            assert(load_post(
                pre,
                *kernel,
                task,
                self.elf,
                strs_bytes(args@),
                regions@,
                fresh,
                mid,
                mapped,
                stacked,
            ));
        }
        task
    }
}

} // verus!
