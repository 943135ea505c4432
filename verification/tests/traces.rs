use proc_core::backend::MemBackend;
use proc_core::console::Console;
use proc_core::context::TaskContext;
use proc_core::dispatch::{ConsoleOnly, SyscallFs, SyscallIO, SyscallMem, SyscallTask, SyscallTime};
use proc_core::fd::FdList;
use proc_core::file::FileSystem;
use proc_core::flags::MappingFlags;
use proc_core::frame::FrameAllocator;
use proc_core::kernel::Kernel;
use proc_core::memory_set::{MemRegion, MemorySet};
use proc_core::scheduler::{self, Hart};
use proc_core::stack::{TaskStack, TASK_STACK_SIZE};
use proc_core::task::{Task, TaskState};
use proc_core::time::Clock;
use proc_core::trap::{TrapHandler, TrapOutcome};
use proc_core::utils::{get_str_len, raw_ptr_to_ref_str};
use std::collections::HashMap;

const BASE: usize = 0x1000_0000;
const PAGES: usize = 48;

struct Lcg(u64);

impl Lcg {
    fn next(&mut self, bound: usize) -> usize {
        self.0 = self.0.wrapping_mul(6364136223846793005).wrapping_add(1442695040888963407);
        ((self.0 >> 33) as usize) % bound
    }
}

fn rw() -> MappingFlags {
    MappingFlags::user_rwx(true, true, false)
}

fn regions() -> Vec<MemRegion> {
    vec![MemRegion {
        vaddr: 0xffff_ffc0_8000_0000,
        paddr: 0x8000_0000,
        size: 4 * 4096,
        flags: MappingFlags { read: true, write: true, execute: false, user: false },
    }]
}

/// Checks the invariants of the address space that can be seen from outside,
/// and that memory reads what the shadow says.
fn check(ms: &MemorySet, shadow: &HashMap<usize, Option<Vec<u8>>>) {
    let n = ms.area_count();
    for i in 0..n {
        let a = ms.area(i);
        assert_eq!(a.vaddr % 4096, 0);
        for j in 0..n {
            if i != j {
                let b = ms.area(j);
                assert!(a.end_va() <= b.vaddr || b.end_va() <= a.vaddr);
            }
        }
        for (slot, page) in a.pages.iter().enumerate() {
            let va = a.vaddr + slot * 4096;
            assert_eq!(ms.find_area(va), Some(i));
            match page {
                Some(p) => {
                    assert_eq!(ms.translate(va + 5), Some((p.start_paddr() + 5, a.flags)));
                    assert_eq!(shadow[&va].as_deref(), Some(p.as_slice()));
                }
                None => {
                    assert_eq!(ms.translate(va), None);
                    assert_eq!(shadow[&va], None);
                }
            }
        }
    }
    let mapped: usize = (0..n).map(|i| ms.area(i).pages.len()).sum();
    assert_eq!(mapped, shadow.len());
    for page in 0..PAGES {
        let va = BASE + page * 4096;
        assert_eq!(ms.find_area(va).is_some(), shadow.contains_key(&va));
        let expected = shadow.get(&va).and_then(|p| p.clone());
        assert_eq!(ms.read_bytes(va, 4096), expected);
    }
}

#[test]
fn random_traces_keep_the_address_space_in_order() {
    for seed in 1..6u64 {
        let mut rng = Lcg(seed);
        let mut frames = FrameAllocator::new(0x9000_0000, 20_000).unwrap();
        let mut fs = FileSystem::new();
        let mut ms = MemorySet::new_with_kernel_mapped(&regions(), &mut frames);
        let mut shadow: HashMap<usize, Option<Vec<u8>>> = HashMap::new();
        for step in 0..120 {
            let page = rng.next(PAGES);
            let count = 1 + rng.next(6).min(PAGES - page - 1);
            let start = BASE + page * 4096;
            let size = count * 4096 - rng.next(2) * 100;
            match rng.next(4) {
                0 => {
                    assert!(ms.mmap_check(start, size, true, None, 0, frames.free_frames()));
                    assert_eq!(ms.mmap(start, size, rw(), true, None, &mut frames, &mut fs), start as isize);
                    for k in 0..count {
                        shadow.insert(start + k * 4096, None);
                    }
                }
                1 => {
                    assert!(ms.munmap_check(start, size, frames.free_frames()));
                    ms.munmap(start, size, &mut frames, &mut fs);
                    for k in 0..count {
                        shadow.remove(&(start + k * 4096));
                    }
                }
                2 => {
                    let flags = MappingFlags::user_rwx(false, true, false);
                    if ms.fault_check(start + 7, flags) {
                        ms.handle_page_fault(start + 7, flags, &mut frames, &fs);
                        assert_eq!(shadow[&start], None);
                        shadow.insert(start, Some(vec![0u8; 4096]));
                    } else {
                        assert!(shadow.get(&start).map_or(true, |p| p.is_some()));
                    }
                }
                _ => {
                    let data = [step as u8, seed as u8, 0xa5];
                    let at = start + rng.next(4093);
                    let resident = shadow.get(&start).map_or(false, |p| p.is_some());
                    assert_eq!(ms.write_bytes(at, &data), resident);
                    if resident {
                        let p = shadow.get_mut(&start).unwrap().as_mut().unwrap();
                        p[at - start..at - start + 3].copy_from_slice(&data);
                    }
                }
            }
            // A split makes the pieces that stay resident: pages that were
            // lazy in an area that was split read as zeros from then on.
            for i in 0..ms.area_count() {
                let a = ms.area(i);
                for (slot, page) in a.pages.iter().enumerate() {
                    let va = a.vaddr + slot * 4096;
                    if page.is_some() && shadow[&va].is_none() {
                        shadow.insert(va, Some(vec![0u8; 4096]));
                    }
                }
            }
            check(&ms, &shadow);
        }
        let copy = ms.clone_mapped(&mut frames);
        check(&copy, &shadow);
        ms.release(&mut frames, &mut fs);
        check(&ms, &HashMap::new());
        check(&copy, &shadow);
    }
}

#[test]
fn file_backed_pages_come_from_their_window_of_the_file() {
    let mut frames = FrameAllocator::new(0x9000_0000, 256).unwrap();
    let mut fs = FileSystem::new();
    let mut content = Vec::new();
    for i in 0..10_000u32 {
        content.push((i % 253) as u8);
    }
    let node = fs.create(b"/f".to_vec(), content.clone());
    let mut ms = MemorySet::new_with_kernel_mapped(&regions(), &mut frames);
    // A window that starts 100 bytes into the file and runs past its end.
    let backend = MemBackend::new(node, 100);
    assert_eq!(ms.mmap(BASE, 3 * 4096, rw(), true, Some(backend), &mut frames, &mut fs), BASE as isize);
    for page in [2usize, 0, 1] {
        ms.handle_page_fault(BASE + page * 4096, MappingFlags::user_rwx(true, false, false), &mut frames, &fs);
    }
    let read = ms.read_bytes(BASE, 3 * 4096).unwrap();
    assert_eq!(read[..9_900], content[100..]);
    assert!(read[9_900..].iter().all(|b| *b == 0));
    // Writing back extends the file to the end of the last page.
    ms.release(&mut frames, &mut fs);
    assert_eq!(fs.nodes[node].data.len(), 100 + 3 * 4096);
    assert_eq!(fs.nodes[node].data[..10_000], content[..]);
    assert!(fs.nodes[node].data[10_000..].iter().all(|b| *b == 0));
}

fn small_kernel() -> Kernel {
    let mut frames = FrameAllocator::new(0x9000_0000, 1024).unwrap();
    let mut space = MemorySet::new_with_kernel_mapped(&regions(), &mut frames);
    space.new_region(BASE, 0x2000, rw(), Some(b"one\0two"), None, &mut frames);
    let mut sched = scheduler::init();
    let id = sched.alloc_id();
    let task = Task {
        pid: id,
        tid: id,
        state: TaskState::Ready,
        ctx: TaskContext::new(),
        memory_set: 0,
        kstack: TaskStack::alloc_stack(TASK_STACK_SIZE, &mut frames),
        ustack: BASE + 0x2000,
        fd_table: FdList::default(),
    };
    sched.start(task);
    Kernel {
        scheduler: sched,
        spaces: vec![space],
        frames,
        fs: FileSystem::new(),
        console: Console::new(),
        clock: Clock { ticks: 10_000_000 },
        hart: Hart { regs: TaskContext::new(), satp: 0, terminated: false, gp: 0, tp: 0, sstatus: 0 },
        task_entry: 0x8000,
    }
}

#[test]
fn strings_in_user_memory() {
    let kernel = small_kernel();
    let ms = &kernel.spaces[0];
    assert_eq!(get_str_len(ms, BASE), Some(3));
    assert_eq!(get_str_len(ms, BASE + 3), Some(0));
    assert_eq!(raw_ptr_to_ref_str(ms, BASE + 4), Some(b"two".to_vec()));
    assert_eq!(raw_ptr_to_ref_str(ms, BASE + 1), Some(b"ne".to_vec()));
    assert_eq!(get_str_len(ms, BASE + 0x2000), None);
    assert_eq!(get_str_len(ms, usize::MAX), None);
    assert!(kernel.user_resident(BASE, 0x2000));
    assert!(!kernel.user_resident(BASE, 0x2001));
    assert!(kernel.user_resident(usize::MAX, 0));
}

#[test]
fn a_string_that_runs_to_the_end_of_its_area_has_no_length() {
    let mut kernel = small_kernel();
    assert!(kernel.user_write(BASE + 0x1ffc, b"abcd"));
    assert_eq!(get_str_len(&kernel.spaces[0], BASE + 0x1ffc), None);
    assert_eq!(raw_ptr_to_ref_str(&kernel.spaces[0], BASE + 0x1ffc), None);
}

#[test]
fn the_interfaces_reach_the_system_calls() {
    let mut kernel = small_kernel();
    assert_eq!(SyscallFs::write(&mut kernel, 1, BASE, 3), 3);
    assert_eq!(kernel.console.output, b"one".to_vec());
    assert_eq!(SyscallFs::fcntl(&mut kernel, 1, 0, 7), 7);
    assert_eq!(SyscallFs::fcntl(&mut kernel, 1, 1, 7), -1);
    assert_eq!(SyscallFs::fcntl(&mut kernel, 9, 0, 7), -1);
    assert_eq!(SyscallFs::write(&mut kernel, 7, BASE + 4, 3), 3);
    assert_eq!(SyscallFs::close(&mut kernel, 7), 0);
    assert_eq!(SyscallFs::read(&mut kernel, 7, BASE, 1), -1);
    assert_eq!(SyscallFs::open_at(&mut kernel, 0, BASE, 0, 0), -1);
    assert_eq!(SyscallFs::fstat(&mut kernel, 0, BASE + 0x100), 0);
    assert_eq!(SyscallFs::write_v(&mut kernel, 1, BASE, -3), 0);
    let at = SyscallMem::mmap(&mut kernel, 0, 4096, 1, 0x22, 0, 0);
    assert_eq!(at, (BASE + 0x3000) as isize);
    assert_eq!(SyscallMem::mprotect(&mut kernel, at as usize, 4096, 3), 0);
    assert_eq!(SyscallMem::munmap(&mut kernel, at as usize, 4096), 0);
    assert_eq!(kernel.spaces[0].area_count(), 1);
    assert_eq!(SyscallTime::get_time_of_day(&mut kernel, BASE + 0x200, 0), 0);
    assert_eq!(kernel.user_read(BASE + 0x200, 16).unwrap()[0], 1);
    assert_eq!(SyscallTask::clone(&mut kernel, 0, 0), 2);
    assert_eq!(SyscallTask::sched_yield(&mut kernel), 0);
    assert_eq!(kernel.scheduler.current.try_get().unwrap().tid, 2);
    SyscallTask::exit(&mut kernel, 0);
    assert_eq!(kernel.scheduler.current.try_get().unwrap().tid, 1);
    assert_eq!(TrapHandler::handle_irq(&mut kernel, 9), TrapOutcome::DispatchIrq(9));
    assert_eq!(TrapHandler::handle_user_ecall(&mut kernel, 29, [0; 6]), 0);
    let lazy = SyscallMem::mmap(&mut kernel, 0, 4096, 3, 0x22, 0, 0) as usize;
    TrapHandler::handle_page_fault(&mut kernel, lazy + 8, MappingFlags::user_rwx(true, false, false));
    assert_eq!(kernel.user_read(lazy, 2).unwrap(), vec![0, 0]);

    let mut only = ConsoleOnly(small_kernel());
    assert_eq!(SyscallIO::write(&mut only, 1, BASE + 4, 3), 3);
    assert_eq!(only.0.console.output, b"two".to_vec());
    assert_eq!(SyscallIO::write(&mut only, 1, BASE + 0x3000, 3), -1);
}

#[test]
fn console_input_is_taken_in_order() {
    let mut console = Console::new();
    console.input.extend(b"abcdef".iter());
    assert_eq!(console.getchar(), Some(b'a'));
    assert_eq!(console.read_bytes(2), b"bc".to_vec());
    assert_eq!(console.read_bytes(0), Vec::<u8>::new());
    assert_eq!(console.read_bytes(10), b"def".to_vec());
    assert_eq!(console.getchar(), None);
    console.write_bytes(b"xy");
    console.putchar(b'z');
    assert_eq!(console.output, b"xyz".to_vec());
}
