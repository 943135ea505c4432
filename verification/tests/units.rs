use proc_core::context::{gen_trap_frame, TaskContext, TrapFrame};
use proc_core::elf::{compute_reloc, DynSymbol, ElfImage, ProgramHeader, RelaEntry, SegmentType, ELF_BASE};
use proc_core::fd::{FdList, FileRef};
use proc_core::file::{bytes_eq, FileSystem, IoError};
use proc_core::flags::{CloneFlags, MMapFlags, MMapProtFlag, MappingFlags, OpenFlags};
use proc_core::frame::FrameAllocator;
use proc_core::memory_set::{MemRegion, MemorySet};
use proc_core::scheduler::{self, Hart};
use proc_core::stack::{TaskStack, TASK_STACK_SIZE};
use proc_core::syscall::{parse_iovec, IoVec, Kstat, SyscallId};
use proc_core::task::{clone_flags, words_to_bytes, Task, TaskState};
use proc_core::time::{
    current_time, current_time_nanos, duration_of, ticks_to_nanos, timeval_of, Clock, Duration,
    TimeVal,
};

fn task(id: usize, space: usize, frames: &mut FrameAllocator) -> Task {
    Task {
        pid: id,
        tid: id,
        state: TaskState::Ready,
        ctx: TaskContext::new(),
        memory_set: space,
        kstack: TaskStack::alloc_stack(TASK_STACK_SIZE, frames),
        ustack: 0x4000_0000,
        fd_table: FdList::default(),
    }
}

fn hart() -> Hart {
    Hart { regs: TaskContext::new(), satp: 0, terminated: false, gp: 0, tp: 0, sstatus: 0 }
}

fn spaces(frames: &mut FrameAllocator, n: usize) -> Vec<MemorySet> {
    let regions: Vec<MemRegion> = Vec::new();
    (0..n).map(|_| MemorySet::new_with_kernel_mapped(&regions, frames)).collect()
}

#[test]
fn alloc_returns_the_smallest_free_descriptor() {
    let mut table = FdList::default();
    assert_eq!(table.len(), 3);
    assert_eq!(table.alloc_fd(FileRef::Open(10)), 3);
    assert_eq!(table.alloc_fd(FileRef::Open(11)), 4);
    assert_eq!(table.alloc_fd(FileRef::Open(12)), 5);
    assert!(table.close(4));
    assert!(!table.close(4));
    assert!(!table.close(40));
    assert_eq!(table.query_fd(4), None);
    assert_eq!(table.alloc_fd(FileRef::Open(13)), 4);
    assert_eq!(table.query_fd(4), Some(FileRef::Open(13)));
    assert!(table.close(1));
    assert!(table.close(3));
    assert_eq!(table.alloc_fd(FileRef::Open(14)), 1);
    assert_eq!(table.alloc_fd(FileRef::Open(15)), 3);
    assert_eq!(table.alloc_fd(FileRef::Open(16)), 6);
}

#[test]
fn alloc_hint_skips_below_the_hint_and_extends() {
    let mut table = FdList::default();
    assert!(table.close(1));
    assert_eq!(table.alloc_hint(2, FileRef::Open(1)), 3);
    assert_eq!(table.alloc_hint(7, FileRef::Open(2)), 7);
    assert_eq!(table.len(), 8);
    assert_eq!(table.query_fd(5), None);
    assert_eq!(table.query_fd(7), Some(FileRef::Open(2)));
    assert_eq!(table.alloc_hint(4, FileRef::Open(3)), 4);
    assert_eq!(table.alloc_hint(0, FileRef::Open(4)), 1);
    let copy = table.duplicate();
    assert_eq!(copy.0, table.0);
    assert!(FileRef::Stdin.readable() && !FileRef::Stdin.writable());
    assert!(!FileRef::Stdout.readable() && FileRef::Stdout.writable());
    assert!(!FileRef::Stderr.readable() && FileRef::Stderr.writable());
    assert!(!FileRef::Open(0).executable());
}

#[test]
fn ready_tasks_run_in_fifo_order() {
    let mut frames = FrameAllocator::new(0x8000_0000, 1024).unwrap();
    let spaces = spaces(&mut frames, 1);
    let mut hart = hart();
    let mut sched = scheduler::init();
    assert_eq!(sched.next_id, 1);
    let init = task(sched.alloc_id(), 0, &mut frames);
    sched.start(init);
    for _ in 0..3 {
        let id = sched.alloc_id();
        let mut t = task(id, 0, &mut frames);
        t.ctx.ra = 0x100 + id;
        sched.add_task(t);
    }
    let mut order = Vec::new();
    for _ in 0..3 {
        sched.yield_current(&mut hart, &spaces, &mut frames);
        let cur = sched.current.try_get().unwrap();
        assert_eq!(cur.state, TaskState::Running);
        assert_eq!(hart.regs.ra, 0x100 + cur.tid);
        order.push(cur.tid);
    }
    assert_eq!(order, vec![2, 3, 4]);
    // The task that ran first is at the head again, behind it those that yielded.
    let queued: Vec<usize> = sched.ready.iter().map(|t| t.tid).collect();
    assert_eq!(queued, vec![1, 2, 3]);
    assert!(sched.ready.iter().all(|t| t.state == TaskState::Ready));
}

#[test]
fn exit_of_a_task_hands_over_and_exit_of_init_terminates() {
    let mut frames = FrameAllocator::new(0x8000_0000, 1024).unwrap();
    let spaces = spaces(&mut frames, 2);
    let mut hart = hart();
    let mut sched = scheduler::init();
    // A task joins with a number of its own that was taken from the counter.
    let init = task(1, 0, &mut frames);
    assert!(!sched.can_admit(&init));
    let first = sched.alloc_id();
    assert!(sched.can_admit(&init));
    sched.start(init);
    assert!(!sched.can_admit(&task(first, 0, &mut frames)));
    let second = sched.alloc_id();
    assert_eq!((first, second), (1, 2));
    let other = task(second, 1, &mut frames);
    assert!(sched.can_admit(&other));
    assert!(!sched.can_admit(&Task { pid: 1, ..task(second, 1, &mut frames) }));
    assert!(!sched.can_admit(&task(0, 1, &mut frames)));
    assert!(!sched.can_admit(&task(3, 1, &mut frames)));
    sched.add_task(other);
    assert!(!sched.can_admit(&task(second, 1, &mut frames)));
    sched.yield_current(&mut hart, &spaces, &mut frames);
    assert_eq!(sched.current.try_get().unwrap().tid, 2);
    assert_eq!(hart.satp, spaces[1].page_table_root_ppn());
    // A task that yields keeps its kernel stack; one that exits gives it back.
    assert_eq!(frames.returned_frames(), 0);
    let fresh = frames.free_frames();
    sched.exit_current(&mut hart, &spaces, &mut frames);
    assert_eq!(frames.returned_frames(), TASK_STACK_SIZE / 4096);
    assert_eq!(frames.free_frames(), fresh);
    assert_eq!(sched.current.try_get().unwrap().tid, 1);
    assert_eq!(sched.ready.len(), 0);
    assert!(!hart.terminated);
    assert_eq!(hart.satp, spaces[0].page_table_root_ppn());
    sched.exit_current(&mut hart, &spaces, &mut frames);
    assert!(hart.terminated);
    assert_eq!(frames.returned_frames(), TASK_STACK_SIZE / 4096);
    // A task that yields alone goes on at once.
    sched.yield_current(&mut hart, &spaces, &mut frames);
    assert_eq!(sched.current.try_get().unwrap().tid, 1);
}

#[test]
fn task_state_and_context() {
    let mut frames = FrameAllocator::new(0x8000_0000, 1024).unwrap();
    let mut t = task(1, 0, &mut frames);
    assert!(t.is_init() && t.is_ready() && !t.is_running() && !t.is_blocked());
    t.set_state(TaskState::Blocked);
    assert!(t.is_blocked());
    t.enter_as_init();
    assert!(t.is_running());
    t.set_in_wait_queue(true);
    assert_eq!(
        [TaskState::Running, TaskState::Ready, TaskState::Blocked, TaskState::Exited].map(|s| s.as_u8()),
        [1, 2, 3, 4]
    );
    t.ctx_mut_ptr().s0 = 7;
    assert_eq!(t.ctx.s0, 7);
    assert_eq!(t.fd_table().len(), 3);
    assert_eq!(Task { pid: 12, tid: 340, ..task(1, 0, &mut frames) }.id_name(), "Task(12, 340)");
    let mut a = TaskContext::new();
    a.init(0x1234, 0x8000);
    assert_eq!((a.ra, a.sp), (0x1234, 0x8000));
    let mut hart_regs = TaskContext { s1: 9, ..TaskContext::new() };
    let mut prev = TaskContext::default();
    prev.switch_to(&a, &mut hart_regs);
    assert_eq!(prev.s1, 9);
    assert_eq!(hart_regs, a);
    let tf = gen_trap_frame(0x4000_0000, 0x1000, 1, 2, 0x122);
    assert_eq!((tf.regs.sp, tf.sepc, tf.regs.gp, tf.regs.tp), (0x4000_0000, 0x1000, 1, 2));
    assert_eq!(tf.sstatus, 0x22 | (1 << 18));
    assert_eq!(tf.regs.a0, 0);
    assert_eq!(TrapFrame::default().args(), [0; 6]);
    let stack = TaskStack::alloc_stack(TASK_STACK_SIZE, &mut frames);
    assert_eq!(stack.top() - stack.bottom(), TASK_STACK_SIZE);
    assert_eq!(stack.trap_frame_ptr(), stack.top() - 264);
    assert_eq!(stack.trap_frame_ptr_mut(), stack.top() - 264);
}

#[test]
fn pushes_on_the_user_stack() {
    let mut frames = FrameAllocator::new(0x8000_0000, 1024).unwrap();
    let mut space = spaces(&mut frames, 1).pop().unwrap();
    space.new_region(0x10000, 0x1000, MappingFlags::user_rwx(true, true, false), Some(&[]), None, &mut frames);
    let mut t = task(1, 0, &mut frames);
    t.kstack.trap_frame_mut().regs.sp = 0x11000;
    assert_eq!(t.push_str("abc", &mut space), 0x11000 - 4);
    assert_eq!(space.read_bytes(0x10ffc, 4).unwrap(), b"abc\0".to_vec());
    // Words are aligned to eight bytes.
    assert_eq!(t.push_slice(&[0x0102_0304_0506_0708, 2], &mut space), 0x10fe8);
    assert_eq!(space.read_bytes(0x10fe8, 9).unwrap(), vec![8, 7, 6, 5, 4, 3, 2, 1, 2]);
    assert_eq!(t.push_bytes(&[0xff], &mut space), 0x10fe7);
    assert_eq!(t.kstack.trap_frame().regs.sp, 0x10fe7);
    assert_eq!(words_to_bytes(&[1]), vec![1, 0, 0, 0, 0, 0, 0, 0]);
}

#[test]
fn flag_words() {
    assert_eq!(MMapProtFlag::from_bits(3).unwrap().mapping_flags(), MappingFlags::user_rwx(true, true, false));
    assert_eq!(MMapProtFlag::from_bits(4).unwrap().mapping_flags(), MappingFlags::user_rwx(false, false, true));
    assert_eq!(MMapProtFlag::from_bits(0).unwrap().mapping_flags(), MappingFlags::user_only());
    assert!(MMapProtFlag::from_bits(8).is_none());
    assert!(MMapFlags::from_bits(0x4033).unwrap().contains(16));
    assert!(!MMapFlags::from_bits(0x22).unwrap().contains(16));
    assert!(MMapFlags::from_bits(0x4).is_none());
    assert!(CloneFlags::from_bits(0x100).unwrap().contains(0x100));
    assert!(CloneFlags::from_bits(0x101).is_none());
    assert_eq!(clone_flags(0x111), Some(CloneFlags { bits: 0x100 }));
    assert_eq!(clone_flags(17), Some(CloneFlags { bits: 0 }));
    assert_eq!(clone_flags(0x1100), None);
    let ro = OpenFlags::from_bits(0).unwrap();
    let wo = OpenFlags::from_bits(1 | 64).unwrap();
    let rw = OpenFlags::from_bits(2 | (1 << 19)).unwrap();
    assert!(ro.wants_read() && !ro.wants_write());
    assert!(!wo.wants_read() && wo.wants_write());
    assert!(rw.wants_read() && rw.wants_write());
    assert!(OpenFlags::from_bits(1 << 9).is_none());
    let all = MappingFlags::user_rwx(true, true, true);
    assert!(all.contains(MappingFlags::user_rwx(true, false, false)));
    assert!(!MappingFlags::user_only().contains(MappingFlags::user_rwx(true, false, false)));
    assert!(MappingFlags::empty().union(MappingFlags::user_only()).user);
    assert!(!MappingFlags::empty().contains(MappingFlags::user_only()));
}

#[test]
fn time_values() {
    assert_eq!(ticks_to_nanos(25), 2_500);
    let clock = Clock { ticks: 35_000_000_123 };
    assert_eq!(clock.current_ticks(), 35_000_000_123);
    assert_eq!(current_time_nanos(&clock), 3_500_000_012_300);
    assert_eq!(current_time(&clock), Duration { secs: 3500, nanos: 12_300 });
    assert_eq!(Duration::from_nanos(1_999_999_999), Duration { secs: 1, nanos: 999_999_999 });
    assert_eq!(Duration::from_micros(2_500_001), Duration { secs: 2, nanos: 500_001_000 });
    let d = Duration { secs: 3, nanos: 250_000_999 };
    assert_eq!(d.as_secs(), 3);
    assert_eq!(d.as_micros(), 3_250_000);
    assert_eq!(timeval_of(d), TimeVal { secs: 3, usecs: 3_250_000 });
    assert_eq!(TimeVal::from(d), TimeVal { secs: 3, usecs: 3_250_000 });
    assert_eq!(duration_of(TimeVal { secs: 99, usecs: 3_250_000 }), Duration { secs: 3, nanos: 250_000_000 });
    assert_eq!(Duration::from(TimeVal { secs: 0, usecs: 7 }), Duration { secs: 0, nanos: 7_000 });
    assert_eq!(TimeVal::default(), TimeVal { secs: 0, usecs: 0 });
    assert_eq!(d.sub(Duration { secs: 1, nanos: 500_000_000 }), Duration { secs: 1, nanos: 750_000_999 });
    assert_eq!(d.sub(d), Duration { secs: 0, nanos: 0 });
}

#[test]
fn syscall_numbers() {
    let table = [
        (25, SyscallId::Fcntl),
        (29, SyscallId::IoCtl),
        (56, SyscallId::OpenAt),
        (57, SyscallId::Close),
        (63, SyscallId::Read),
        (64, SyscallId::Write),
        (66, SyscallId::WriteV),
        (80, SyscallId::Fstat),
        (93, SyscallId::Exit),
        (94, SyscallId::ExitGroup),
        (96, SyscallId::SetTidAddress),
        (124, SyscallId::SchedYield),
        (169, SyscallId::GetTimeOfDay),
        (215, SyscallId::MUnmap),
        (220, SyscallId::Clone),
        (222, SyscallId::MMap),
        (226, SyscallId::MProtect),
    ];
    for (n, id) in table {
        assert_eq!(SyscallId::from_usize(n), Some(id));
        assert_eq!(id.number(), n);
    }
    for n in [0usize, 24, 26, 65, 95, 221, 227, 1000] {
        assert_eq!(SyscallId::from_usize(n), None);
    }
    let mut sixteen = Vec::new();
    sixteen.extend_from_slice(&0x1234u64.to_le_bytes());
    sixteen.extend_from_slice(&77u64.to_le_bytes());
    assert_eq!(parse_iovec(&sixteen), IoVec { io_v_base: 0x1234, io_v_len: 77 });
    assert_eq!(Kstat::placeholder().to_bytes().len(), 120);
    assert_eq!(Kstat::placeholder().st_nlink, 1);
}

#[test]
fn stored_files_and_open_files() {
    let mut fs = FileSystem::new();
    let a = fs.create(b"/a".to_vec(), b"hello".to_vec());
    let b = fs.create(b"/b".to_vec(), Vec::new());
    assert_eq!((a, b), (0, 1));
    assert_eq!(fs.lookup(b"/b"), Some(1));
    assert_eq!(fs.lookup(b"/c"), None);
    assert_eq!(fs.read_node(a, 1, 3), Ok(b"ell".to_vec()));
    assert_eq!(fs.read_node(a, 3, 10), Ok(b"lo".to_vec()));
    assert_eq!(fs.read_node(a, 5, 10), Ok(Vec::new()));
    assert_eq!(fs.read_node(2, 0, 1), Err(IoError::NotFound));
    assert_eq!(fs.write_node(b, 3, b"xy"), Ok(2));
    assert_eq!(fs.nodes[b].data, vec![0, 0, 0, b'x', b'y']);
    assert_eq!(fs.write_node(9, 0, b"xy"), Err(IoError::NotFound));
    assert_eq!(fs.write_node(a, u64::MAX, b"xy"), Err(IoError::InvalidInput));
    let r = fs.open_handle(a, true, false);
    let w = fs.open_handle(a, false, true);
    assert_eq!(fs.read_handle(r, 2), Ok(b"he".to_vec()));
    assert_eq!(fs.read_handle(r, 10), Ok(b"llo".to_vec()));
    assert_eq!(fs.read_handle(r, 10), Ok(Vec::new()));
    assert_eq!(fs.handle(r).unwrap().pos, 5);
    assert_eq!(fs.read_handle(w, 1), Err(IoError::PermissionDenied));
    assert_eq!(fs.write_handle(r, b"z"), Err(IoError::PermissionDenied));
    assert_eq!(fs.write_handle(w, b"J"), Ok(1));
    assert_eq!(fs.write_handle(w, b"E"), Ok(1));
    assert_eq!(fs.nodes[a].data, b"JEllo".to_vec());
    assert_eq!(fs.read_handle(7, 1), Err(IoError::NotFound));
    assert_eq!(fs.handle(7), None);
    assert!(bytes_eq(b"ab", b"ab") && !bytes_eq(b"ab", b"ac") && !bytes_eq(b"ab", b"a"));
}

#[test]
fn relocation_values_and_base() {
    let syms = [DynSymbol { shndx: 0, value: 5 }, DynSymbol { shndx: 3, value: 0x100 }];
    let e = |kind, symbol, addend| RelaEntry { offset: 0, addend, symbol, kind };
    assert_eq!(compute_reloc(&e(6, 1, 8), &syms, 0x1000, false), Some(0x1108));
    assert_eq!(compute_reloc(&e(7, 1, 8), &syms, 0x1000, false), Some(0x1108));
    assert_eq!(compute_reloc(&e(2, 1, u64::MAX), &syms, 0x1000, false), Some(0x10ff));
    assert_eq!(compute_reloc(&e(2, 0, 8), &syms, 0x1000, false), None);
    assert_eq!(compute_reloc(&e(2, 2, 8), &syms, 0x1000, false), None);
    assert_eq!(compute_reloc(&e(8, 9, 0x20), &syms, 0x1000, false), Some(0x1020));
    assert_eq!(compute_reloc(&e(3, 9, 0x20), &syms, 0x1000, false), Some(0x1020));
    assert_eq!(compute_reloc(&e(5, 1, 0x20), &syms, 0x1000, false), None);
    assert_eq!(compute_reloc(&e(5, 1, 0x20), &syms, 0x1000, true), Some(0x1100));
    assert_eq!(compute_reloc(&e(5, 0, 0x20), &syms, 0x1000, true), None);
    assert_eq!(compute_reloc(&e(3, 1, 0x20), &syms, 0x1000, true), None);

    let load = |vaddr, offset| ProgramHeader {
        kind: SegmentType::Load,
        vaddr,
        mem_size: 0x1000,
        offset,
        file_size: 0x1000,
        read: true,
        write: false,
        execute: false,
    };
    let mut elf = ElfImage {
        input: vec![0x7f, 0x45, 0x4c, 0x46],
        entry: 0,
        ph_offset: 0,
        ph_entry_size: 0,
        ph_count: 0,
        segments: vec![load(0x5000, 0x1000), load(0, 0)],
        rela_dyn: None,
        rela_plt: None,
        dynsym: None,
    };
    assert!(elf.magic_ok());
    assert_eq!(elf.base_addr(), ELF_BASE);
    assert_eq!(elf.header_vaddr(), 0);
    elf.segments = vec![load(0x5000, 0x1000), load(0x4000, 0)];
    assert_eq!(elf.base_addr(), 0);
    assert_eq!(elf.header_vaddr(), 0x4000);
    elf.segments = vec![load(0x5000, 0x1000)];
    assert_eq!((elf.base_addr(), elf.header_vaddr()), (0, 0));
    elf.input[3] = 0x47;
    assert!(!elf.magic_ok());
    assert_eq!(load(0, 0).flags(), MappingFlags::user_rwx(true, false, false));
}

#[test]
fn image_at_address_zero_is_loaded_at_the_base() {
    let mut frames = FrameAllocator::new(0x8000_0000, 64).unwrap();
    let mut ms = spaces(&mut frames, 1).pop().unwrap();
    let mut input = vec![0u8; 0x1000];
    input[..4].copy_from_slice(&[0x7f, 0x45, 0x4c, 0x46]);
    let elf = ElfImage {
        input,
        entry: 0x80,
        ph_offset: 64,
        ph_entry_size: 56,
        ph_count: 1,
        segments: vec![ProgramHeader {
            kind: SegmentType::Load,
            vaddr: 0,
            mem_size: 0x1800,
            offset: 0,
            file_size: 0x1000,
            read: true,
            write: true,
            execute: true,
        }],
        rela_dyn: Some(vec![RelaEntry { offset: 0x1008, addend: 0x40, symbol: 0, kind: 8 }]),
        rela_plt: None,
        // A relative entry needs no symbol table.
        dynsym: None,
    };
    let auxv = ms.map_elf(&elf, &mut frames);
    assert_eq!(ms.entry(), ELF_BASE + 0x80);
    assert_eq!(ms.area(0).vaddr, ELF_BASE);
    assert_eq!(ms.area(0).pages.len(), 2);
    assert_eq!(ms.read_bytes(ELF_BASE + 0x1008, 8).unwrap(), ((ELF_BASE + 0x40) as u64).to_le_bytes().to_vec());
    assert_eq!(auxv.get(&3), Some(&(ELF_BASE + 64)));
    assert_eq!(auxv.get(&4), Some(&56));
    assert_eq!(auxv.get(&5), Some(&1));
    assert_eq!(auxv.get(&6), Some(&4096));
    assert_eq!(auxv.get(&25), Some(&0));
    assert_eq!(auxv.len(), 5);
}
