use proc_core::console::Console;
use proc_core::context::TaskContext;
use proc_core::dispatch::{can_serve, syscall};
use proc_core::elf::{DynSymbol, ElfImage, ProgramHeader, RelaEntry, SegmentType};
use proc_core::fd::FileRef;
use proc_core::file::FileSystem;
use proc_core::flags::MappingFlags;
use proc_core::frame::FrameAllocator;
use proc_core::kernel::Kernel;
use proc_core::loader::{Loader, USTACK_BOTTOM};
use proc_core::memory_set::MemRegion;
use proc_core::scheduler::{self, Hart};
use proc_core::stack::TASK_STACK_SIZE;
use proc_core::syscall::SyscallId;
use proc_core::task::TaskState;
use proc_core::time::Clock;
use proc_core::trap::{riscv_trap_handler, TrapCause, TrapOutcome};
use proc_core::ulib;

const KERNEL_BASE: usize = 0xffff_ffc0_8000_0000;
const PHYS_BASE: usize = 0x8000_0000;
const TASK_ENTRY: usize = 0xffff_ffc0_8000_1000;
const MESSAGE: usize = 0x12010;
const SCRATCH: usize = 0x12800;

fn regions() -> Vec<MemRegion> {
    vec![MemRegion {
        vaddr: KERNEL_BASE,
        paddr: PHYS_BASE,
        size: 16 * 4096,
        flags: MappingFlags { read: true, write: true, execute: true, user: false },
    }]
}

fn image() -> ElfImage {
    let mut input = vec![0u8; 0x1030];
    input[..4].copy_from_slice(&[0x7f, 0x45, 0x4c, 0x46]);
    input[0x1010..0x1013].copy_from_slice(b"hi\n");
    input[0x1013] = b'C';
    input[0x1014] = b'P';
    ElfImage {
        input,
        entry: 0x10100,
        ph_offset: 64,
        ph_entry_size: 56,
        ph_count: 2,
        segments: vec![
            ProgramHeader {
                kind: SegmentType::Load,
                vaddr: 0x10000,
                mem_size: 0x1000,
                offset: 0,
                file_size: 0x1000,
                read: true,
                write: false,
                execute: true,
            },
            ProgramHeader {
                kind: SegmentType::Load,
                vaddr: 0x12010,
                mem_size: 0x2000,
                offset: 0x1010,
                file_size: 0x20,
                read: true,
                write: true,
                execute: false,
            },
        ],
        rela_dyn: Some(vec![
            RelaEntry { offset: 0x12018, addend: 0x10100, symbol: 0, kind: 3 },
            RelaEntry { offset: 0x12020, addend: 8, symbol: 1, kind: 2 },
        ]),
        rela_plt: Some(vec![RelaEntry { offset: 0x12028, addend: 0, symbol: 1, kind: 5 }]),
        dynsym: Some(vec![DynSymbol { shndx: 0, value: 0 }, DynSymbol { shndx: 1, value: 0x12030 }]),
    }
}

fn machine() -> Kernel {
    Kernel {
        scheduler: scheduler::init(),
        spaces: Vec::new(),
        frames: FrameAllocator::new(PHYS_BASE + 0x10_0000, 2048).unwrap(),
        fs: FileSystem::new(),
        console: Console::new(),
        clock: Clock { ticks: 12_345_678 },
        hart: Hart {
            regs: TaskContext::new(),
            satp: 0,
            terminated: false,
            gp: 0x1111,
            tp: 0x2222,
            sstatus: 0x100,
        },
        task_entry: TASK_ENTRY,
    }
}

fn boot() -> Kernel {
    let mut kernel = machine();
    let task = Loader::new(image()).try_load(&["init", "-v"], &regions(), &mut kernel).unwrap();
    scheduler::start(&mut kernel.scheduler, task);
    kernel
}

fn current_tid(kernel: &Kernel) -> usize {
    kernel.scheduler.current.try_get().unwrap().tid
}

fn current_a0(kernel: &Kernel) -> usize {
    kernel.scheduler.current.try_get().unwrap().kstack.trap_frame().regs.a0
}

fn word_at(kernel: &Kernel, va: usize) -> u64 {
    let bytes = kernel.user_read(va, 8).unwrap();
    let mut w = [0u8; 8];
    w.copy_from_slice(&bytes);
    u64::from_le_bytes(w)
}

fn cstr_at(kernel: &Kernel, va: usize) -> Vec<u8> {
    let id = kernel.scheduler.current.try_get().unwrap().memory_set;
    proc_core::utils::raw_ptr_to_ref_str(&kernel.spaces[id], va).unwrap()
}

#[test]
fn hello_world_init_writes_and_terminates() {
    let mut kernel = boot();
    assert_eq!(current_tid(&kernel), 1);
    assert_eq!(ulib::write(&mut kernel, 1, MESSAGE, 3), 3);
    assert_eq!(kernel.console.output, b"hi\n".to_vec());
    assert!(!kernel.hart.terminated);
    ulib::exit(&mut kernel, 0);
    assert!(kernel.hart.terminated);
    assert_eq!(kernel.console.output, b"hi\n".to_vec());
}

#[test]
fn fork_then_yield_lets_the_child_print_first() {
    let mut kernel = boot();
    let child = ulib::fork(&mut kernel);
    assert_eq!(child, 2);
    assert_eq!(current_tid(&kernel), 1);
    assert_eq!(ulib::sched_yield(&mut kernel), 0);
    // The child runs now; the parent waits at the back of the queue.
    assert_eq!(current_tid(&kernel), 2);
    assert_eq!(ulib::write(&mut kernel, 1, MESSAGE + 3, 1), 1);
    ulib::exit(&mut kernel, 0);
    assert!(!kernel.hart.terminated);
    assert_eq!(current_tid(&kernel), 1);
    assert_eq!(ulib::write(&mut kernel, 1, MESSAGE + 4, 1), 1);
    let out = kernel.console.output.clone();
    let c = out.iter().position(|b| *b == b'C').unwrap();
    let p = out.iter().position(|b| *b == b'P').unwrap();
    assert!(c < p);
    assert_eq!(out, b"CP".to_vec());
}

#[test]
fn clone_returns_child_tid_to_parent_and_zero_to_child() {
    let mut kernel = boot();
    let pc = kernel.scheduler.current.try_get().unwrap().kstack.trap_frame().sepc;
    let ret = ulib::fork(&mut kernel);
    assert!(ret > 0);
    assert_eq!(ret, 2);
    assert_eq!(current_a0(&kernel) as isize, ret);
    let child = kernel.scheduler.ready.back().unwrap();
    assert_eq!(child.tid, 2);
    assert_eq!(child.pid, 2);
    assert_eq!(child.state, TaskState::Ready);
    assert_eq!(child.kstack.trap_frame().regs.a0, 0);
    assert_eq!(child.kstack.trap_frame().sepc, pc + 4);
    assert_eq!(child.ctx.ra, TASK_ENTRY);
    assert_eq!(child.ctx.sp, child.kstack.top() - 264);
    assert_ne!(child.memory_set, kernel.scheduler.current.try_get().unwrap().memory_set);
    ulib::sched_yield(&mut kernel);
    assert_eq!(current_tid(&kernel), 2);
    assert_eq!(current_a0(&kernel), 0);
    assert_eq!(kernel.hart.regs.ra, TASK_ENTRY);
    assert_eq!(kernel.hart.satp, kernel.spaces[1].page_table_root_ppn());
}

#[test]
fn fork_without_clone_vm_gives_independent_memory() {
    let mut kernel = boot();
    assert_eq!(ulib::fork(&mut kernel), 2);
    assert_eq!(kernel.spaces.len(), 2);
    assert!(kernel.user_write(SCRATCH, b"parent"));
    ulib::sched_yield(&mut kernel);
    assert_eq!(current_tid(&kernel), 2);
    // The child has the bytes as they were at the fork, not those written after it.
    assert_eq!(kernel.user_read(SCRATCH, 6).unwrap(), vec![0u8; 6]);
    assert_eq!(kernel.user_read(MESSAGE, 3).unwrap(), b"hi\n".to_vec());
    assert!(kernel.user_write(SCRATCH, b"child!"));
    ulib::sched_yield(&mut kernel);
    assert_eq!(current_tid(&kernel), 1);
    assert_eq!(kernel.user_read(SCRATCH, 6).unwrap(), b"parent".to_vec());
}

#[test]
fn clone_with_clone_vm_shares_memory() {
    let mut kernel = boot();
    let stack_for_child = USTACK_BOTTOM + 0x8000;
    let ret = syscall(&mut kernel, 220, [0x100, stack_for_child, 0, 0, 0, 0]);
    assert_eq!(ret, 2);
    assert_eq!(kernel.spaces.len(), 1);
    let child = kernel.scheduler.ready.back().unwrap();
    assert_eq!(child.memory_set, 0);
    assert_eq!(child.kstack.trap_frame().regs.sp, stack_for_child);
    assert_eq!(child.ustack, stack_for_child);
    assert!(kernel.user_write(SCRATCH, b"shared"));
    assert_eq!(syscall(&mut kernel, 124, [0; 6]), 0);
    assert_eq!(current_tid(&kernel), 2);
    assert_eq!(kernel.user_read(SCRATCH, 6).unwrap(), b"shared".to_vec());
    assert!(kernel.user_write(SCRATCH, b"SHARED"));
    assert_eq!(syscall(&mut kernel, 124, [0; 6]), 0);
    assert_eq!(current_tid(&kernel), 1);
    assert_eq!(kernel.user_read(SCRATCH, 6).unwrap(), b"SHARED".to_vec());
    // Flags that are not understood are refused.
    assert_eq!(syscall(&mut kernel, 220, [0x200, 0, 0, 0, 0, 0]), -1);
}

#[test]
fn mmap_anonymous_then_fault_gives_zeroed_pages() {
    let mut kernel = boot();
    let top = kernel.spaces[0].max_va();
    let at = syscall(&mut kernel, 222, [0, 8192, 3, 0x22, 0, 0]);
    assert!(at as usize >= top + 4096);
    let at = at as usize;
    assert_eq!(at % 4096, 0);
    for page in 0..2usize {
        let va = at + page * 4096 + 0x18;
        assert!(!kernel.user_write(va, &[1]));
        assert!(!kernel.trap_is_fatal(TrapCause::StorePageFault, va, true));
        let before = kernel.frames.free_frames();
        let out = riscv_trap_handler(&mut kernel, TrapCause::StorePageFault, va, true);
        assert_eq!(out, TrapOutcome::Resume);
        assert_eq!(kernel.frames.free_frames(), before - 1);
        assert_eq!(kernel.user_read(at + page * 4096, 4096).unwrap(), vec![0u8; 4096]);
        assert!(kernel.user_write(va, &[1]));
        // A second fault on the same page would be fatal.
        assert!(kernel.trap_is_fatal(TrapCause::StorePageFault, va, true));
        let (pa, flags) = kernel.spaces[0].translate(va).unwrap();
        assert_eq!(pa % 4096, 0x18);
        assert_eq!(flags, MappingFlags::user_rwx(true, true, false));
    }
    // The area permits no execution, and the kernel may not fault at all.
    assert!(kernel.trap_is_fatal(TrapCause::InstructionPageFault, at + 0x2000, true));
    assert!(kernel.trap_is_fatal(TrapCause::LoadPageFault, at, false));
}

#[test]
fn mmap_file_backed_split_in_the_middle() {
    let mut kernel = boot();
    let mut content = Vec::new();
    for i in 0..(4 * 4096u32) {
        content.push((i % 241) as u8);
    }
    let node = kernel.fs.create(b"/big".to_vec(), content.clone());
    let handle = kernel.fs.open_handle(node, true, true);
    let mut task = kernel.take_current();
    let fd = task.fd_table.alloc_fd(FileRef::Open(handle));
    kernel.put_current(task);
    assert_eq!(fd, 3);
    let areas_before = kernel.spaces[0].area_count();
    let at = syscall(&mut kernel, 222, [0x2000_0000, 4 * 4096, 3, 0x11, fd, 0]);
    assert_eq!(at, 0x2000_0000);
    let at = at as usize;
    // Bring in the third page and make it dirty.
    riscv_trap_handler(&mut kernel, TrapCause::StorePageFault, at + 0x2000, true);
    assert!(kernel.user_write(at + 0x2000, &[0xee]));
    assert_eq!(syscall(&mut kernel, 215, [at + 0x2000, 4096, 0, 0, 0, 0]), 0);
    // The one area has become two: 8 KiB below the hole and 4 KiB above it.
    assert_eq!(kernel.spaces[0].area_count(), areas_before + 2);
    let n = kernel.spaces[0].area_count();
    let left = kernel.spaces[0].area(n - 2);
    let right = kernel.spaces[0].area(n - 1);
    assert_eq!((left.vaddr, left.size()), (at, 8192));
    assert_eq!((right.vaddr, right.size()), (at + 0x3000, 4096));
    assert_eq!(kernel.user_read(at, 8192).unwrap(), content[..8192].to_vec());
    assert_eq!(kernel.user_read(at + 0x3000, 4096).unwrap(), content[12288..].to_vec());
    assert!(kernel.user_read(at + 0x2000, 1).is_none());
    // The page that was given up went back to the file first.
    assert_eq!(kernel.fs.nodes[node].data[8192], 0xee);
    assert_eq!(kernel.fs.nodes[node].data[8193..], content[8193..]);
    // Unmapping with a start that is not page-aligned is refused.
    assert_eq!(syscall(&mut kernel, 215, [at + 1, 4096, 0, 0, 0, 0]), -1);
}

#[test]
fn munmap_rounds_its_size_up_to_whole_pages() {
    let mut kernel = boot();
    let at = syscall(&mut kernel, 222, [0x3000_0000, 3 * 4096, 3, 0x32, 0, 0]) as usize;
    assert_eq!(at, 0x3000_0000);
    assert_eq!(syscall(&mut kernel, 215, [at + 0x1000, 100, 0, 0, 0, 0]), 0);
    let n = kernel.spaces[0].area_count();
    let left = kernel.spaces[0].area(n - 2);
    let right = kernel.spaces[0].area(n - 1);
    assert_eq!((left.vaddr, left.size()), (at, 4096));
    assert_eq!((right.vaddr, right.size()), (at + 0x2000, 4096));
}

#[test]
fn openat_read_close_then_read_fails() {
    let mut kernel = boot();
    let _ = kernel.fs.create(b"/x".to_vec(), b"ABC".to_vec());
    assert!(kernel.user_write(SCRATCH, b"/x\0"));
    let fd = syscall(&mut kernel, 56, [0, SCRATCH, 0, 0, 0, 0]);
    assert_eq!(fd, 3);
    let buf = SCRATCH + 0x100;
    assert_eq!(syscall(&mut kernel, 63, [fd as usize, buf, 3, 0, 0, 0]), 3);
    assert_eq!(kernel.user_read(buf, 3).unwrap(), b"ABC".to_vec());
    assert_eq!(syscall(&mut kernel, 57, [fd as usize, 0, 0, 0, 0, 0]), 0);
    assert_eq!(syscall(&mut kernel, 63, [fd as usize, buf, 3, 0, 0, 0]), -1);
    assert_eq!(syscall(&mut kernel, 57, [fd as usize, 0, 0, 0, 0, 0]), -1);
    // A path that names no file, and flags that are not understood.
    assert!(kernel.user_write(SCRATCH, b"/y\0"));
    assert_eq!(syscall(&mut kernel, 56, [0, SCRATCH, 0, 0, 0, 0]), -1);
    assert!(kernel.user_write(SCRATCH, b"/x\0"));
    assert_eq!(syscall(&mut kernel, 56, [0, SCRATCH, 0x400, 0, 0, 0]), -1);
    // The descriptor that was closed is the next one handed out.
    assert_eq!(syscall(&mut kernel, 56, [0, SCRATCH, 1, 0, 0, 0]), 3);
    // Opened write-only, the file cannot be read.
    assert_eq!(syscall(&mut kernel, 63, [3, buf, 3, 0, 0, 0]), -1);
    assert_eq!(syscall(&mut kernel, 64, [3, MESSAGE, 2, 0, 0, 0]), 2);
    assert_eq!(kernel.fs.nodes[0].data, b"hiC".to_vec());
}

#[test]
fn every_call_advances_sepc_by_four_and_returns_in_a0() {
    let mut kernel = boot();
    for (id, args, expected) in [
        (29usize, [0usize; 6], 0isize),
        (96, [0; 6], 0),
        (57, [9, 0, 0, 0, 0, 0], -1),
        (64, [1, MESSAGE, 3, 0, 0, 0], 3),
        (25, [1, 0, 5, 0, 0, 0], 5),
        (226, [0x12000, 4096, 1, 0, 0, 0], 0),
    ] {
        let mut task = kernel.take_current();
        let mut tf = *task.kstack.trap_frame();
        let pc = tf.sepc;
        tf.regs.a7 = id;
        tf.regs.a0 = args[0];
        tf.regs.a1 = args[1];
        tf.regs.a2 = args[2];
        task.set_trap_frame(tf);
        kernel.put_current(task);
        assert!(!kernel.trap_is_fatal(TrapCause::UserEnvCall, 0, true));
        assert_eq!(riscv_trap_handler(&mut kernel, TrapCause::UserEnvCall, 0, true), TrapOutcome::Resume);
        let after = *kernel.scheduler.current.try_get().unwrap().kstack.trap_frame();
        assert_eq!(after.sepc, pc + 4);
        assert_eq!(after.regs.a0 as isize, expected);
        assert_eq!(after.regs.a7, id);
        assert_eq!(after.regs.sp, tf.regs.sp);
    }
}

#[test]
fn traps_other_than_calls() {
    let mut kernel = boot();
    let pc = kernel.scheduler.current.try_get().unwrap().kstack.trap_frame().sepc;
    assert_eq!(riscv_trap_handler(&mut kernel, TrapCause::Breakpoint, 0, true), TrapOutcome::Resume);
    assert_eq!(kernel.scheduler.current.try_get().unwrap().kstack.trap_frame().sepc, pc + 2);
    assert_eq!(
        riscv_trap_handler(&mut kernel, TrapCause::Interrupt(5), 0, true),
        TrapOutcome::DispatchIrq(5)
    );
    assert!(kernel.trap_is_fatal(TrapCause::Other(7), 0, true));
    assert!(!kernel.trap_is_fatal(TrapCause::Interrupt(5), 0, false));
    // An unknown system call is fatal, and so is a fault where nothing is mapped.
    let mut task = kernel.take_current();
    let mut tf = *task.kstack.trap_frame();
    tf.regs.a7 = 1000;
    task.set_trap_frame(tf);
    kernel.put_current(task);
    assert!(kernel.trap_is_fatal(TrapCause::UserEnvCall, 0, true));
    assert!(!can_serve(&kernel, 1000, [0; 6]));
    assert!(can_serve(&kernel, 93, [0; 6]));
    assert!(kernel.trap_is_fatal(TrapCause::LoadPageFault, 0x7000_0000, true));
    let mut handler_pc: usize = 10;
    proc_core::trap::handle_breakpoint(&mut handler_pc);
    assert_eq!(handler_pc, 12);
}

#[test]
fn loader_builds_the_init_task() {
    let mut kernel = machine();
    let free = kernel.frames.free_frames();
    let task = Loader::new(image()).load(&["init", "-v"], &regions(), &mut kernel);
    assert_eq!((task.pid, task.tid), (1, 1));
    assert_eq!(task.state, TaskState::Ready);
    assert_eq!(task.ustack, USTACK_BOTTOM + TASK_STACK_SIZE);
    assert_eq!(task.memory_set, 0);
    assert_eq!(task.fd_table.query_fd(0), Some(FileRef::Stdin));
    assert_eq!(task.fd_table.query_fd(1), Some(FileRef::Stdout));
    assert_eq!(task.fd_table.query_fd(2), Some(FileRef::Stderr));
    assert_eq!(task.fd_table.query_fd(3), None);
    assert_eq!(kernel.scheduler.next_id, 2);
    // The root, four pages of the image, and 64 pages for each stack.
    assert_eq!(kernel.frames.free_frames(), free - 1 - 4 - 128);
    let tf = *task.kstack.trap_frame();
    assert_eq!(tf.sepc, 0x10100);
    assert_eq!(tf.regs.gp, 0x1111);
    assert_eq!(tf.regs.tp, 0x2222);
    assert_eq!(tf.sstatus, 1 << 18);
    assert_eq!(kernel.hart.sstatus, 0x100 | (1 << 18));
    assert_eq!(kernel.hart.satp, kernel.spaces[0].page_table_root_ppn());
    assert_eq!(kernel.spaces[0].entry(), 0x10100);
    assert_eq!(task.trap_frame_ptr(), task.kstack.top() - 264);
    assert_eq!(task.kstack.bottom() + TASK_STACK_SIZE, task.kstack.top());
    assert_eq!(task.id_name(), "Task(1, 1)");
    scheduler::start(&mut kernel.scheduler, task);
    assert_eq!(kernel.scheduler.current.try_get().unwrap().state, TaskState::Running);

    // The image: file bytes in place, zeros after them, relocations applied.
    assert_eq!(kernel.user_read(0x10000, 4).unwrap(), vec![0x7f, 0x45, 0x4c, 0x46]);
    assert_eq!(kernel.user_read(MESSAGE, 3).unwrap(), b"hi\n".to_vec());
    assert_eq!(word_at(&kernel, 0x12018), 0x10100);
    assert_eq!(word_at(&kernel, 0x12020), 0x12038);
    assert_eq!(word_at(&kernel, 0x12028), 0x12030);
    assert_eq!(kernel.user_read(0x14ff8, 8).unwrap(), vec![0u8; 8]);
    assert!(kernel.user_read(0x15000, 1).is_none());
    assert_eq!(kernel.spaces[0].area(0).flags, MappingFlags::user_rwx(true, false, true));
    assert_eq!(kernel.spaces[0].area(1).flags, MappingFlags::user_rwx(true, true, false));
    assert_eq!(kernel.spaces[0].area_count(), 3);

    // The stack, read upwards from the stack pointer.
    let top = USTACK_BOTTOM + TASK_STACK_SIZE;
    let sp = tf.regs.sp;
    assert_eq!(sp % 8, 0);
    assert!(sp < top && sp > USTACK_BOTTOM);
    assert_eq!(word_at(&kernel, sp), 2);
    let argv0 = word_at(&kernel, sp + 8) as usize;
    let argv1 = word_at(&kernel, sp + 16) as usize;
    assert_eq!(word_at(&kernel, sp + 24), 0);
    assert_eq!(cstr_at(&kernel, argv0), b"init".to_vec());
    assert_eq!(cstr_at(&kernel, argv1), b"-v".to_vec());
    let env0 = word_at(&kernel, sp + 32) as usize;
    assert_eq!(cstr_at(&kernel, env0), b"SHLVL=1".to_vec());
    let env8 = word_at(&kernel, sp + 32 + 8 * 8) as usize;
    assert!(cstr_at(&kernel, env8).starts_with(b"LIBRARY_PATH="));
    assert_eq!(word_at(&kernel, sp + 32 + 9 * 8), 0);
    let auxv = sp + 32 + 10 * 8;
    let random = word_at(&kernel, auxv + 8) as usize;
    assert_eq!(word_at(&kernel, auxv), 25);
    assert_eq!(word_at(&kernel, random), 3703830112808742751);
    assert_eq!(word_at(&kernel, random + 8), 7081108068768079778);
    assert_eq!((word_at(&kernel, auxv + 16), word_at(&kernel, auxv + 24)), (6, 4096));
    assert_eq!((word_at(&kernel, auxv + 32), word_at(&kernel, auxv + 40)), (5, 2));
    assert_eq!((word_at(&kernel, auxv + 48), word_at(&kernel, auxv + 56)), (4, 56));
    assert_eq!((word_at(&kernel, auxv + 64), word_at(&kernel, auxv + 72)), (3, 0x10040));
    assert_eq!((word_at(&kernel, auxv + 80), word_at(&kernel, auxv + 88)), (0, 0));
    // The first thing pushed is the first argument, right below the top.
    assert_eq!(kernel.user_read(top - 5, 5).unwrap(), b"init\0".to_vec());
}

#[test]
fn loader_finds_the_interpreter_path() {
    let mut elf = image();
    assert_eq!(Loader::new(image()).interp_path(), None);
    elf.input.extend_from_slice(b"\0/lib/ld.so\0\0");
    elf.segments.push(ProgramHeader {
        kind: SegmentType::Interp,
        vaddr: 0,
        mem_size: 13,
        offset: 0x1030,
        file_size: 13,
        read: true,
        write: false,
        execute: false,
    });
    assert_eq!(Loader::new(elf).interp_path(), Some(b"/lib/ld.so".to_vec()));
}

#[test]
fn gettimeofday_and_instants() {
    let mut kernel = boot();
    // 12_345_678 ticks of 100 ns are 1.2345678 s.
    assert_eq!(ulib::get_time_of_day(&mut kernel, SCRATCH), 0);
    assert_eq!(word_at(&kernel, SCRATCH), 1);
    assert_eq!(word_at(&kernel, SCRATCH + 8), 1_234_567);
    let t0 = ulib::Instant::now(&mut kernel, SCRATCH).unwrap();
    kernel.clock.ticks += 10_000_000;
    let t1 = ulib::Instant::now(&mut kernel, SCRATCH).unwrap();
    let d = t1.duration_since(t0);
    assert_eq!((d.secs, d.nanos), (1, 0));
    assert_eq!(t0.elapsed(t1), d);
    // The kernel refuses a target that is not resident; a program never
    // hands one over, and an instant cannot be had there.
    assert_eq!(syscall(&mut kernel, 169, [0x7000_0000, 0, 0, 0, 0, 0]), -1);
    let pc = kernel.scheduler.current.try_get().unwrap().kstack.trap_frame().sepc;
    assert!(ulib::Instant::now(&mut kernel, 0x7000_0000).is_none());
    assert_eq!(kernel.scheduler.current.try_get().unwrap().kstack.trap_frame().sepc, pc);
}

#[test]
fn writev_and_fstat() {
    let mut kernel = boot();
    let mut table = Vec::new();
    for (base, len) in [(MESSAGE, 2usize), (MESSAGE, 0), (MESSAGE + 2, 1)] {
        table.extend_from_slice(&(base as u64).to_le_bytes());
        table.extend_from_slice(&(len as u64).to_le_bytes());
    }
    assert!(kernel.user_write(SCRATCH, &table));
    assert_eq!(syscall(&mut kernel, 66, [2, SCRATCH, 3, 0, 0, 0]), 3);
    assert_eq!(kernel.console.output, b"hi\n".to_vec());
    assert_eq!(syscall(&mut kernel, 66, [2, SCRATCH, 0, 0, 0, 0]), 0);
    assert_eq!(syscall(&mut kernel, 66, [2, 0x7000_0000, 1, 0, 0, 0]), -1);
    // A descriptor that is not open refuses each buffer that is not empty.
    assert_eq!(syscall(&mut kernel, 66, [7, SCRATCH, 3, 0, 0, 0]), -2);
    assert_eq!(syscall(&mut kernel, 80, [1, SCRATCH + 0x200, 0, 0, 0, 0]), 0);
    let stat = kernel.user_read(SCRATCH + 0x200, 120).unwrap();
    assert_eq!(stat[0..8], 1u64.to_le_bytes());
    assert_eq!(stat[8..16], 1u64.to_le_bytes());
    assert_eq!(stat[16..20], 0u32.to_le_bytes());
    assert_eq!(stat[20..24], 1u32.to_le_bytes());
    assert!(stat[24..].iter().all(|b| *b == 0));
    assert_eq!(syscall(&mut kernel, 80, [7, SCRATCH + 0x200, 0, 0, 0, 0]), -1);
}

#[test]
fn standard_streams_through_read_and_write() {
    let mut kernel = boot();
    kernel.console.input.extend(b"key".iter());
    assert_eq!(syscall(&mut kernel, 63, [0, SCRATCH, 2, 0, 0, 0]), 2);
    assert_eq!(kernel.user_read(SCRATCH, 2).unwrap(), b"ke".to_vec());
    assert_eq!(syscall(&mut kernel, 63, [0, SCRATCH, 8, 0, 0, 0]), 1);
    assert_eq!(syscall(&mut kernel, 63, [0, SCRATCH, 8, 0, 0, 0]), 0);
    assert_eq!(syscall(&mut kernel, 64, [2, MESSAGE, 2, 0, 0, 0]), 2);
    assert_eq!(syscall(&mut kernel, 64, [1, 0x7000_0000, 2, 0, 0, 0]), -1);
    assert_eq!(kernel.console.output, b"hi".to_vec());
    assert_eq!(kernel.console.getchar(), None);
    kernel.console.putchar(b'!');
    assert_eq!(kernel.console.output, b"hi!".to_vec());
}

fn calling(kernel: &mut Kernel, id: usize, args: [usize; 3]) {
    let mut task = kernel.take_current();
    let mut tf = *task.kstack.trap_frame();
    tf.regs.a7 = id;
    tf.regs.a0 = args[0];
    tf.regs.a1 = args[1];
    tf.regs.a2 = args[2];
    task.set_trap_frame(tf);
    kernel.put_current(task);
}

#[test]
fn reading_an_output_stream_or_writing_the_input_stream_is_fatal() {
    let mut kernel = boot();
    assert!(kernel.read_is_fatal(1) && kernel.read_is_fatal(2) && !kernel.read_is_fatal(0));
    assert!(kernel.write_is_fatal(0) && !kernel.write_is_fatal(1) && !kernel.write_is_fatal(2));
    assert!(!kernel.read_is_fatal(7) && !kernel.write_is_fatal(7));
    assert!(!can_serve(&kernel, 63, [1, SCRATCH, 2, 0, 0, 0]));
    assert!(!can_serve(&kernel, 63, [2, SCRATCH, 2, 0, 0, 0]));
    assert!(can_serve(&kernel, 63, [0, SCRATCH, 2, 0, 0, 0]));
    assert!(!can_serve(&kernel, 64, [0, MESSAGE, 2, 0, 0, 0]));
    assert!(can_serve(&kernel, 64, [1, MESSAGE, 2, 0, 0, 0]));
    // A descriptor that is not open is no fatal matter: the call returns -1.
    assert!(can_serve(&kernel, 64, [7, MESSAGE, 2, 0, 0, 0]));
    assert_eq!(syscall(&mut kernel, 64, [7, MESSAGE, 2, 0, 0, 0]), -1);
    assert!(can_serve(&kernel, 63, [7, SCRATCH, 2, 0, 0, 0]));
    assert_eq!(syscall(&mut kernel, 63, [7, SCRATCH, 2, 0, 0, 0]), -1);
    // A program finds the same before it calls.
    assert!(!ulib::call_allowed(&kernel, SyscallId::Write, [0, MESSAGE, 2, 0]));
    assert!(ulib::call_allowed(&kernel, SyscallId::Write, [1, MESSAGE, 2, 0]));
    assert!(!ulib::call_allowed(&kernel, SyscallId::Read, [1, SCRATCH, 2, 0]));
    assert!(ulib::call_allowed(&kernel, SyscallId::Read, [0, SCRATCH, 2, 0]));
    assert!(ulib::call_allowed(&kernel, SyscallId::Exit, [0, 0, 0, 0]));
    // The trap entry sees the same.
    calling(&mut kernel, 64, [0, MESSAGE, 2]);
    assert!(kernel.trap_is_fatal(TrapCause::UserEnvCall, 0, true));
    calling(&mut kernel, 63, [2, SCRATCH, 2]);
    assert!(kernel.trap_is_fatal(TrapCause::UserEnvCall, 0, true));
    calling(&mut kernel, 63, [0, SCRATCH, 2]);
    assert!(!kernel.trap_is_fatal(TrapCause::UserEnvCall, 0, true));
    // After a descriptor is closed and opened on a copy, the copy decides.
    assert_eq!(syscall(&mut kernel, 25, [0, 0, 5, 0, 0, 0]), 5);
    assert!(kernel.write_is_fatal(5));
    assert_eq!(syscall(&mut kernel, 57, [0, 0, 0, 0, 0, 0]), 0);
    assert!(!kernel.write_is_fatal(0));
    assert!(can_serve(&kernel, 64, [0, MESSAGE, 2, 0, 0, 0]));
    assert_eq!(syscall(&mut kernel, 64, [0, MESSAGE, 2, 0, 0, 0]), -1);
}

#[test]
fn writev_to_the_input_stream_is_fatal_once_a_buffer_holds_bytes() {
    let mut kernel = boot();
    let mut table = Vec::new();
    for (base, len) in [(MESSAGE, 0usize), (MESSAGE, 0)] {
        table.extend_from_slice(&(base as u64).to_le_bytes());
        table.extend_from_slice(&(len as u64).to_le_bytes());
    }
    assert!(kernel.user_write(SCRATCH, &table));
    // Two empty buffers: no write is made.
    assert!(!kernel.write_v_is_fatal(0, SCRATCH, 2));
    assert!(can_serve(&kernel, 66, [0, SCRATCH, 2, 0, 0, 0]));
    assert_eq!(syscall(&mut kernel, 66, [0, SCRATCH, 2, 0, 0, 0]), 0);
    // The second buffer holds a byte.
    assert!(kernel.user_write(SCRATCH + 24, &1u64.to_le_bytes()));
    assert!(kernel.write_v_is_fatal(0, SCRATCH, 2));
    assert!(!kernel.write_v_is_fatal(0, SCRATCH, 1));
    assert!(!kernel.write_v_is_fatal(1, SCRATCH, 2));
    assert!(!kernel.write_v_is_fatal(0, SCRATCH, 0));
    assert!(!kernel.write_v_is_fatal(0, 0x7000_0000, 2));
    assert!(!can_serve(&kernel, 66, [0, SCRATCH, 2, 0, 0, 0]));
    assert!(can_serve(&kernel, 66, [1, SCRATCH, 2, 0, 0, 0]));
    assert_eq!(syscall(&mut kernel, 66, [1, SCRATCH, 2, 0, 0, 0]), 1);
    assert_eq!(kernel.console.output, b"h".to_vec());
}

#[test]
fn a_size_at_the_top_of_the_address_space_is_refused() {
    let mut kernel = boot();
    // Rounding such a size up to whole pages would leave the address space.
    for len in [usize::MAX - 4095, usize::MAX - 4094, usize::MAX] {
        assert_eq!(syscall(&mut kernel, 226, [0, len, 3, 0, 0, 0]), -1);
        assert_eq!(syscall(&mut kernel, 215, [0, len, 0, 0, 0, 0]), -1);
        assert_eq!(syscall(&mut kernel, 222, [0x2000_0000, len, 3, 0x32, 0, 0]), -1);
        assert_eq!(syscall(&mut kernel, 222, [0, len, 3, 0x22, 0, 0]), -1);
        let free = kernel.frames.free_frames();
        assert!(!kernel.spaces[0].munmap_check(0, len, free));
        assert!(!kernel.spaces[0].mmap_check(0x2000_0000, len, true, None, 0, free));
    }
    assert_eq!(kernel.spaces[0].area_count(), 3);
    // The largest size that can be rounded is refused for its range only.
    let free = kernel.frames.free_frames();
    assert!(kernel.spaces[0].munmap_check(0, usize::MAX - 4096, free));
    assert!(!kernel.spaces[0].munmap_check(0x1000, usize::MAX - 4096, free));
}

#[test]
fn a_clone_has_a_number_that_no_other_task_has() {
    let mut kernel = boot();
    let mut seen = vec![current_tid(&kernel)];
    for round in 0..3 {
        let child = ulib::fork(&mut kernel) as usize;
        assert!(child > 0);
        assert!(!seen.contains(&child));
        assert_ne!(child, current_tid(&kernel));
        seen.push(child);
        let queued = kernel.scheduler.ready.back().unwrap();
        assert_eq!((queued.pid, queued.tid), (child, child));
        assert_eq!(kernel.scheduler.next_id, child + 1);
        if round == 1 {
            ulib::sched_yield(&mut kernel);
        }
    }
    assert_eq!(seen, vec![1, 2, 3, 4]);
}

#[test]
fn mmap_and_mprotect_refuse_bad_arguments() {
    let mut kernel = boot();
    assert_eq!(syscall(&mut kernel, 222, [0x1000, 4096, 8, 0x32, 0, 0]), -1);
    assert_eq!(syscall(&mut kernel, 222, [0x1000, 4096, 3, 0x40, 0, 0]), -1);
    assert_eq!(syscall(&mut kernel, 222, [0, 4096, 3, 0x32, 0, 0]), -1);
    assert_eq!(syscall(&mut kernel, 222, [0x1001, 4096, 3, 0x32, 0, 0]), -1);
    assert_eq!(syscall(&mut kernel, 222, [KERNEL_BASE, 4096, 3, 0x32, 0, 0]), -1);
    // A file-backed mapping needs an open file.
    assert_eq!(syscall(&mut kernel, 222, [0x1000, 4096, 3, 0x12, 1, 0]), -1);
    assert_eq!(syscall(&mut kernel, 222, [0x1000, 4096, 3, 0x12, 9, 0]), -1);
    assert_eq!(syscall(&mut kernel, 226, [0x12000, 4096, 8, 0, 0, 0]), -1);
    assert_eq!(syscall(&mut kernel, 226, [0x7000_0000, 4096, 1, 0, 0, 0]), -1);
    assert_eq!(syscall(&mut kernel, 226, [0x12000, 4096, 1, 0, 0, 0]), 0);
    assert_eq!(kernel.spaces[0].area(1).flags, MappingFlags::user_rwx(true, false, false));
}

#[test]
fn idle_round_yields() {
    let mut kernel = boot();
    assert_eq!(ulib::fork(&mut kernel), 2);
    ulib::run_idle(&mut kernel);
    assert_eq!(current_tid(&kernel), 2);
    ulib::run_idle(&mut kernel);
    assert_eq!(current_tid(&kernel), 1);
}

#[test]
fn load_is_refused_where_it_would_be_fatal() {
    let kernel = machine();
    let ok = |elf: ElfImage, args: &[&str], regions: &[MemRegion], kernel: &Kernel| {
        Loader::new(elf).can_load_check(args, regions, kernel)
    };
    assert!(ok(image(), &["init"], &regions(), &kernel));
    assert!(!ok(image(), &[], &regions(), &kernel));

    let mut bad_magic = image();
    bad_magic.input[1] = b'F';
    assert!(!ok(bad_magic, &["init"], &regions(), &kernel));

    let mut overlapping = image();
    overlapping.segments[1].vaddr = 0x10010;
    overlapping.segments[1].offset = 0x10;
    assert!(!ok(overlapping, &["init"], &regions(), &kernel));

    let mut misaligned = image();
    misaligned.segments[1].vaddr = 0x12020;
    assert!(!ok(misaligned, &["init"], &regions(), &kernel));

    let mut truncated = image();
    truncated.segments[1].file_size = 0x40;
    assert!(!ok(truncated, &["init"], &regions(), &kernel));

    let mut stray_reloc = image();
    stray_reloc.rela_dyn.as_mut().unwrap()[0].offset = 0x20000;
    assert!(!ok(stray_reloc, &["init"], &regions(), &kernel));

    let mut unknown_reloc = image();
    unknown_reloc.rela_dyn.as_mut().unwrap()[0].kind = 99;
    assert!(!ok(unknown_reloc, &["init"], &regions(), &kernel));

    let mut undefined_symbol = image();
    undefined_symbol.rela_plt.as_mut().unwrap()[0].symbol = 0;
    assert!(!ok(undefined_symbol, &["init"], &regions(), &kernel));

    let mut plt_without_symbols = image();
    plt_without_symbols.dynsym = None;
    assert!(!ok(plt_without_symbols, &["init"], &regions(), &kernel));

    // Without a symbol table an entry that needs a symbol cannot be applied.
    let mut dyn_without_symbols = image();
    dyn_without_symbols.dynsym = None;
    dyn_without_symbols.rela_plt = None;
    dyn_without_symbols.rela_dyn =
        Some(vec![RelaEntry { offset: 0x12008, addend: 0, symbol: 1, kind: 6 }]);
    assert!(!ok(dyn_without_symbols, &["init"], &regions(), &kernel));

    let mut with_interp = image();
    with_interp.segments.push(ProgramHeader {
        kind: SegmentType::Interp,
        vaddr: 0,
        mem_size: 4,
        offset: 0,
        file_size: 4,
        read: true,
        write: false,
        execute: false,
    });
    assert!(!ok(with_interp, &["init"], &regions(), &kernel));

    let mut in_the_stack = image();
    in_the_stack.segments[0].vaddr = USTACK_BOTTOM as u64;
    assert!(!ok(in_the_stack, &["init"], &regions(), &kernel));

    let over_kernel = vec![MemRegion { vaddr: 0x10000, ..regions()[0] }];
    assert!(!ok(image(), &["init"], &over_kernel, &kernel));
    let unaligned = vec![MemRegion { size: 100, ..regions()[0] }];
    assert!(!ok(image(), &["init"], &unaligned, &kernel));
    let twice = vec![regions()[0], regions()[0]];
    assert!(!ok(image(), &["init"], &twice, &kernel));

    let mut small = machine();
    small.frames = FrameAllocator::new(PHYS_BASE + 0x10_0000, 132).unwrap();
    assert!(!ok(image(), &["init"], &regions(), &small));
    small.frames = FrameAllocator::new(PHYS_BASE + 0x10_0000, 133).unwrap();
    assert!(ok(image(), &["init"], &regions(), &small));

    let long = "x".repeat(TASK_STACK_SIZE);
    assert!(!ok(image(), &["init", &long], &regions(), &kernel));
    let fits = "x".repeat(TASK_STACK_SIZE / 4);
    assert!(ok(image(), &["init", &fits], &regions(), &kernel));

    let mut untouched = machine();
    let mut refused = image();
    refused.input[0] = 0;
    assert!(Loader::new(refused).try_load(&["init"], &regions(), &mut untouched).is_none());
    assert_eq!(untouched.spaces.len(), 0);
    assert_eq!(untouched.scheduler.next_id, 1);
    assert_eq!(untouched.frames.free_frames(), 2048);
}

#[test]
fn exit_of_the_last_task_of_an_address_space_writes_back() {
    let mut kernel = boot();
    let node = kernel.fs.create(b"/log".to_vec(), vec![b'.'; 8192]);
    assert_eq!(ulib::fork(&mut kernel), 2);
    ulib::sched_yield(&mut kernel);
    assert_eq!(current_tid(&kernel), 2);
    assert!(kernel.user_write(SCRATCH, b"/log\0"));
    let fd = syscall(&mut kernel, 56, [0, SCRATCH, 2, 0, 0, 0]);
    assert_eq!(fd, 3);
    let at = syscall(&mut kernel, 222, [0x2000_0000, 8192, 3, 0x11, 3, 0]) as usize;
    assert_eq!(at, 0x2000_0000);
    riscv_trap_handler(&mut kernel, TrapCause::StorePageFault, at + 0x1004, true);
    assert_eq!(kernel.user_read(at + 0x1000, 2).unwrap(), b"..".to_vec());
    assert!(kernel.user_write(at + 0x1004, b"done"));
    assert_eq!(kernel.fs.nodes[node].data[0x1004..0x1008], *b"....");
    assert!(kernel.space_used(1));
    let resident = kernel.spaces[1].resident_pages();
    let fresh = kernel.frames.free_frames();
    assert_eq!(kernel.frames.returned_frames(), 0);
    ulib::exit(&mut kernel, 0);
    // The kernel stack of the task and the pages of its address space go back.
    assert_eq!(kernel.frames.returned_frames(), TASK_STACK_SIZE / 4096 + resident);
    assert_eq!(kernel.frames.free_frames(), fresh);
    assert_eq!(current_tid(&kernel), 1);
    assert!(!kernel.space_used(1));
    assert!(kernel.space_used(0));
    assert_eq!(kernel.spaces[1].area_count(), 0);
    assert_eq!(kernel.fs.nodes[node].data[0x1004..0x1008], *b"done");
    assert_eq!(kernel.fs.nodes[node].data[..0x1004], vec![b'.'; 0x1004][..]);
    assert_eq!(kernel.fs.nodes[node].data.len(), 8192);
    // The address space of the parent is as it was.
    assert_eq!(kernel.spaces[0].area_count(), 3);
    assert_eq!(kernel.user_read(MESSAGE, 3).unwrap(), b"hi\n".to_vec());
}

#[test]
fn exit_of_a_thread_keeps_the_shared_address_space() {
    let mut kernel = boot();
    assert_eq!(syscall(&mut kernel, 220, [0x100, 0, 0, 0, 0, 0]), 2);
    assert_eq!(syscall(&mut kernel, 124, [0; 6]), 0);
    assert_eq!(current_tid(&kernel), 2);
    assert_eq!(syscall(&mut kernel, 94, [0; 6]), 0);
    assert_eq!(current_tid(&kernel), 1);
    assert_eq!(kernel.spaces.len(), 1);
    assert_eq!(kernel.spaces[0].area_count(), 3);
    assert!(!kernel.hart.terminated);
    // Only the kernel stack of the thread goes back to the pool.
    assert_eq!(kernel.frames.returned_frames(), TASK_STACK_SIZE / 4096);
}

#[test]
fn a_page_fault_is_served_from_frames_that_came_back() {
    let mut kernel = boot();
    let one = syscall(&mut kernel, 222, [0x2000_0000, 4096, 3, 0x32, 0, 0]) as usize;
    let two = syscall(&mut kernel, 222, [0x2000_4000, 2 * 4096, 3, 0x32, 0, 0]) as usize;
    assert_eq!((one, two), (0x2000_0000, 0x2000_4000));
    riscv_trap_handler(&mut kernel, TrapCause::StorePageFault, one, true);
    let (pa, _) = kernel.spaces[0].translate(one).unwrap();
    assert!(kernel.user_write(one, &[7; 16]));
    assert_eq!(syscall(&mut kernel, 215, [one, 4096, 0, 0, 0, 0]), 0);
    assert_eq!(kernel.frames.returned_frames(), 1);
    // With fresh frames at hand the next page takes one of them.
    let fresh = kernel.frames.free_frames();
    riscv_trap_handler(&mut kernel, TrapCause::StorePageFault, two, true);
    assert_eq!(kernel.frames.free_frames(), fresh - 1);
    assert_eq!(kernel.frames.returned_frames(), 1);
    // Without them it takes the frame that came back, zero-filled again.
    let rest = kernel.frames.free_frames();
    assert!(kernel.frames.alloc_contiguous(rest).is_some());
    assert_eq!(kernel.frames.free_frames(), 0);
    assert!(!kernel.trap_is_fatal(TrapCause::StorePageFault, two + 0x1000, true));
    riscv_trap_handler(&mut kernel, TrapCause::StorePageFault, two + 0x1000, true);
    assert_eq!(kernel.spaces[0].translate(two + 0x1000).unwrap().0, pa);
    assert_eq!(kernel.user_read(two + 0x1000, 16).unwrap(), vec![0u8; 16]);
    assert_eq!(kernel.frames.returned_frames(), 0);
    // Now no frame is left at all.
    assert_eq!(syscall(&mut kernel, 222, [0x3000_0000, 4096, 3, 0x32, 0, 0]), 0x3000_0000);
    assert!(kernel.trap_is_fatal(TrapCause::StorePageFault, 0x3000_0000, true));
}
