use proc_core::addr::{pages_for, PAGE_SIZE_4K};
use proc_core::area::MapArea;
use proc_core::backend::MemBackend;
use proc_core::file::{FileSystem, SeekFrom};
use proc_core::flags::MappingFlags;
use proc_core::frame::FrameAllocator;
use proc_core::memory_set::{MemRegion, MemorySet};
use proc_core::page_table::{PageEntry, PageTable, PagingError};

const KERNEL_BASE: usize = 0xffff_ffc0_8000_0000;
const PHYS_BASE: usize = 0x8000_0000;

fn rw() -> MappingFlags {
    MappingFlags::user_rwx(true, true, false)
}

fn kernel_regions() -> Vec<MemRegion> {
    vec![MemRegion {
        vaddr: KERNEL_BASE,
        paddr: PHYS_BASE,
        size: 4 * PAGE_SIZE_4K,
        flags: MappingFlags { read: true, write: true, execute: true, user: false },
    }]
}

fn fresh(frames: &mut FrameAllocator) -> MemorySet {
    MemorySet::new_with_kernel_mapped(&kernel_regions(), frames)
}

#[test]
fn frame_allocator_hands_out_ascending_zeroed_frames() {
    let mut frames = FrameAllocator::new(0x8000_0000, 4).unwrap();
    assert_eq!(frames.free_frames(), 4);
    let a = frames.alloc_page().unwrap();
    let b = frames.alloc_page().unwrap();
    assert_eq!(a.start_paddr(), 0x8000_0000);
    assert_eq!(b.start_paddr(), 0x8000_1000);
    assert_eq!(frames.free_frames(), 2);
    assert!(a.as_slice().iter().all(|x| *x == 0));
    let rest = frames.alloc_contiguous(2).unwrap();
    assert_eq!(rest[1].as_ref().unwrap().start_paddr(), 0x8000_3000);
    assert!(frames.alloc_page().is_none());
    assert!(FrameAllocator::new(0x8000_0001, 4).is_none());
}

#[test]
fn frames_given_back_are_handed_out_again_once_no_other_is_left() {
    let mut frames = FrameAllocator::new(0x8000_0000, 2).unwrap();
    let a = frames.alloc_page().unwrap();
    let mut b = frames.alloc_page().unwrap();
    b.fill(7);
    assert!(!frames.has_page());
    assert!(frames.alloc_page().is_none());
    frames.dealloc(a);
    assert!(frames.has_page());
    frames.dealloc(b);
    assert_eq!(frames.returned_frames(), 2);
    assert_eq!(frames.free_frames(), 0);
    // A run of frames is taken from those that were never handed out.
    assert!(frames.alloc_contiguous(1).is_none());
    assert_eq!(frames.returned_frames(), 2);
    // The frame that came back last goes out first, zero-filled again.
    let c = frames.alloc_page().unwrap();
    assert_eq!(c.start_paddr(), 0x8000_1000);
    assert!(c.as_slice().iter().all(|x| *x == 0));
    assert_eq!(frames.alloc_page().unwrap().start_paddr(), 0x8000_0000);
    assert!(frames.alloc_page().is_none());
    frames.dealloc_run(0x8000_0000, 2);
    assert_eq!(frames.returned_frames(), 2);
    assert_eq!(frames.alloc_page().unwrap().start_paddr(), 0x8000_1000);
    assert_eq!(frames.alloc_page().unwrap().start_paddr(), 0x8000_0000);
}

#[test]
fn fresh_frames_go_out_before_those_given_back() {
    let mut frames = FrameAllocator::new(0x8000_0000, 3).unwrap();
    let a = frames.alloc_page().unwrap();
    frames.dealloc(a);
    assert_eq!(frames.alloc_page().unwrap().start_paddr(), 0x8000_1000);
    assert_eq!(frames.alloc_page().unwrap().start_paddr(), 0x8000_2000);
    assert_eq!(frames.alloc_page().unwrap().start_paddr(), 0x8000_0000);
    assert!(frames.alloc_page().is_none());
}

#[test]
fn munmap_gives_frames_back_and_a_fault_takes_one_of_them() {
    let mut frames = FrameAllocator::new(PHYS_BASE + 0x10_0000, 4).unwrap();
    let mut fs = FileSystem::new();
    let mut ms = fresh(&mut frames);
    ms.new_region(0x10000, 0x3000, rw(), Some(&[5u8; 8]), None, &mut frames);
    assert_eq!(frames.free_frames(), 0);
    let first = ms.translate(0x10000).unwrap().0;
    assert!(ms.munmap_check(0x10000, 0x3000, frames.free_frames()));
    ms.munmap(0x10000, 0x3000, &mut frames, &mut fs);
    assert_eq!(ms.area_count(), 0);
    assert_eq!(frames.returned_frames(), 3);
    assert_eq!(ms.mmap(0x40000, 0x2000, rw(), true, None, &mut frames, &mut fs), 0x40000);
    let store = MappingFlags::user_rwx(false, true, false);
    assert!(ms.fault_check(0x40000, store));
    assert!(frames.has_page());
    ms.handle_page_fault(0x40000, store, &mut frames, &fs);
    // The frame of the third page came back last and goes out first.
    assert_eq!(ms.translate(0x40000).unwrap().0, first + 0x2000);
    assert_eq!(ms.read_bytes(0x40000, 8).unwrap(), vec![0u8; 8]);
    assert_eq!(frames.returned_frames(), 2);
    // Splitting an area takes fresh frames for the pieces: none is left.
    assert!(!ms.munmap_check(0x40000, 0x1000, frames.free_frames()));
    assert!(!ms.munmap_check(0x41000, 0x1000, frames.free_frames()));
    assert!(ms.munmap_check(0x40000, 0x2000, frames.free_frames()));
}

#[test]
fn page_rounding_goes_through_memory_addr() {
    assert_eq!(pages_for(0), 0);
    assert_eq!(pages_for(1), 1);
    assert_eq!(pages_for(4096), 1);
    assert_eq!(pages_for(4097), 2);
    // mmap rounds its size up to whole pages: 5000 bytes take two pages.
    let mut frames = FrameAllocator::new(PHYS_BASE + 0x10_0000, 64).unwrap();
    let mut fs = FileSystem::new();
    let mut ms = fresh(&mut frames);
    let at = ms.mmap(0, 5000, rw(), false, None, &mut frames, &mut fs);
    assert_eq!(at, 0x1000);
    assert_eq!(ms.area(0).pages.len(), 2);
}

#[test]
fn page_table_maps_and_refuses() {
    let mut frames = FrameAllocator::new(PHYS_BASE, 16).unwrap();
    let mut pt = PageTable::try_new(&mut frames).unwrap();
    assert_eq!(pt.root_paddr(), PHYS_BASE);
    assert_eq!(pt.map_region(0x1000, 0x8000_2000, 0x2000, rw(), false), Ok(()));
    assert_eq!(pt.query(0x1234), Ok((0x8000_2234, rw())));
    assert_eq!(pt.query(0x2fff), Ok((0x8000_3fff, rw())));
    assert_eq!(pt.query(0x3000), Err(PagingError::NotMapped));
    assert_eq!(pt.map_region(0x2000, 0x8000_5000, 0x1000, rw(), false), Err(PagingError::AlreadyMapped));
    assert_eq!(pt.map_region(0x2001, 0x8000_5000, 0x1000, rw(), false), Err(PagingError::NotAligned));
    assert_eq!(pt.map_region(usize::MAX - 0xfff, 0x8000_5000, 0x1000, rw(), false), Err(PagingError::OutOfRange));
    assert_eq!(pt.map_fault_region(0x5000, 0x1000), Ok(()));
    assert_eq!(pt.entry(0x5000), Some(PageEntry::Fault));
    assert_eq!(pt.query(0x5000), Err(PagingError::NotMapped));
    assert_eq!(pt.map_overwrite(0x5000, 0x8000_7000, 0x1000, rw()), Ok(()));
    assert_eq!(pt.query(0x5008), Ok((0x8000_7008, rw())));
    assert_eq!(pt.unmap_region(0x1000, 0x3000), Err(PagingError::NotMapped));
    assert_eq!(pt.unmap_region(0x1000, 0x2000), Ok(()));
    assert_eq!(pt.entry(0x1000), None);
}

#[test]
fn kernel_regions_are_mapped_in_every_address_space() {
    let mut frames = FrameAllocator::new(PHYS_BASE + 0x10_0000, 64).unwrap();
    let ms = fresh(&mut frames);
    assert_eq!(ms.area_count(), 0);
    assert_eq!(ms.entry(), 0);
    assert_eq!(ms.page_table_root_ppn(), PHYS_BASE + 0x10_0000);
    assert!(!ms.range_free(KERNEL_BASE, KERNEL_BASE + 0x1000));
    assert!(ms.range_free(0x1000, 0x2000));
    assert_eq!(ms.max_va(), 0);
}

#[test]
fn areas_never_overlap() {
    let mut frames = FrameAllocator::new(PHYS_BASE + 0x10_0000, 256).unwrap();
    let mut fs = FileSystem::new();
    let mut ms = fresh(&mut frames);
    ms.new_region(0x10000, 0x4000, rw(), None, None, &mut frames);
    assert_eq!(ms.mmap(0x11000, 0x1000, rw(), true, None, &mut frames, &mut fs), 0x11000);
    assert_eq!(ms.mmap(0, 0x3000, rw(), false, None, &mut frames, &mut fs), 0x15000);
    ms.munmap(0x16000, 0x1000, &mut frames, &mut fs);
    let n = ms.area_count();
    for i in 0..n {
        for j in 0..n {
            if i != j {
                let a = ms.area(i);
                let b = ms.area(j);
                assert!(a.end_va() <= b.vaddr || b.end_va() <= a.vaddr);
            }
        }
    }
}

#[test]
fn table_agrees_with_filled_and_empty_slots() {
    let mut frames = FrameAllocator::new(PHYS_BASE + 0x10_0000, 256).unwrap();
    let fs = FileSystem::new();
    let mut ms = fresh(&mut frames);
    ms.new_region(0x10000, 0x3000, rw(), None, None, &mut frames);
    ms.handle_page_fault(0x11008, MappingFlags::user_rwx(false, true, false), &mut frames, &fs);
    let a = ms.area(0);
    assert!(a.pages[0].is_none());
    assert!(a.pages[2].is_none());
    let page = a.pages[1].as_ref().unwrap();
    assert!(page.as_slice().iter().all(|b| *b == 0));
    assert_eq!(ms.translate(0x11008), Some((page.start_paddr() + 8, rw())));
    assert_eq!(ms.translate(0x10008), None);
    assert_eq!(ms.translate(0x12000), None);
    assert_eq!(
        ms.translate(KERNEL_BASE + 0x1234),
        Some((PHYS_BASE + 0x1234, MappingFlags { read: true, write: true, execute: true, user: false }))
    );
    assert_eq!(ms.peek(0x11008), Some(0));
    assert_eq!(ms.peek(0x10008), None);
    assert_eq!(ms.find_area(0x11008), Some(0));
    assert_eq!(ms.find_area(0x13000), None);
}

#[test]
fn lazy_page_becomes_resident_on_fault() {
    let mut frames = FrameAllocator::new(PHYS_BASE + 0x10_0000, 256).unwrap();
    let fs = FileSystem::new();
    let mut ms = fresh(&mut frames);
    ms.new_region(0x20000, 0x2000, rw(), None, None, &mut frames);
    assert!(ms.fault_check(0x20010, MappingFlags::user_rwx(true, false, false)));
    assert!(!ms.fault_check(0x20010, MappingFlags::user_rwx(false, false, true)));
    assert!(!ms.fault_check(0x30010, MappingFlags::user_rwx(true, false, false)));
    assert!(!ms.write_bytes(0x20010, &[1, 2, 3]));
    ms.handle_page_fault(0x20010, MappingFlags::user_rwx(true, false, false), &mut frames, &fs);
    assert!(!ms.fault_check(0x20010, MappingFlags::user_rwx(true, false, false)));
    assert!(ms.write_bytes(0x20010, &[1, 2, 3]));
    assert_eq!(ms.read_bytes(0x2000f, 5), Some(vec![0, 1, 2, 3, 0]));
    assert_eq!(ms.read_bytes(0x20ffe, 4), None);
}

#[test]
fn new_region_with_data_is_zero_padded() {
    let mut frames = FrameAllocator::new(PHYS_BASE + 0x10_0000, 256).unwrap();
    let mut ms = fresh(&mut frames);
    let before = frames.free_frames();
    ms.new_region(0x40000, 5000, rw(), Some(&[7u8, 8, 9]), None, &mut frames);
    assert_eq!(frames.free_frames(), before - 2);
    assert_eq!(ms.read_bytes(0x40000, 5), Some(vec![7, 8, 9, 0, 0]));
    assert_eq!(ms.read_bytes(0x41fff, 1), Some(vec![0]));
    assert_eq!(ms.read_bytes(0x42000, 1), None);
    assert_eq!(ms.max_va(), 0x42000);
}

#[test]
fn munmap_keeps_the_bytes_of_what_stays() {
    let mut frames = FrameAllocator::new(PHYS_BASE + 0x10_0000, 256).unwrap();
    let mut fs = FileSystem::new();
    let mut ms = fresh(&mut frames);
    let mut data = Vec::new();
    for i in 0..(4 * 4096u32) {
        data.push((i % 251) as u8);
    }
    ms.new_region(0x50000, 4 * 4096, rw(), Some(&data), None, &mut frames);
    ms.munmap(0x51000, 0x1000, &mut frames, &mut fs);
    assert_eq!(ms.area_count(), 2);
    assert_eq!(ms.area(0).vaddr, 0x50000);
    assert_eq!(ms.area(0).pages.len(), 1);
    assert_eq!(ms.area(1).vaddr, 0x52000);
    assert_eq!(ms.area(1).pages.len(), 2);
    assert_eq!(ms.read_bytes(0x50000, 4096).unwrap(), data[..4096].to_vec());
    assert_eq!(ms.read_bytes(0x52000, 8192).unwrap(), data[8192..].to_vec());
    assert_eq!(ms.read_bytes(0x51000, 1), None);
    assert!(ms.range_free(0x51000, 0x52000));
}

#[test]
fn munmap_of_file_backed_area_splits_and_writes_back() {
    let mut frames = FrameAllocator::new(PHYS_BASE + 0x10_0000, 256).unwrap();
    let mut fs = FileSystem::new();
    let mut content = Vec::new();
    for i in 0..(4 * 4096u32) {
        content.push((i % 199) as u8);
    }
    let node = fs.create(b"/data".to_vec(), content.clone());
    let mut ms = fresh(&mut frames);
    let at = ms.mmap(0x60000, 4 * 4096, rw(), true, Some(MemBackend::new(node, 0)), &mut frames, &mut fs);
    assert_eq!(at, 0x60000);
    // Touch the third page and change it, so that it is dirty when it is given up.
    ms.handle_page_fault(0x62000, MappingFlags::user_rwx(false, true, false), &mut frames, &fs);
    assert_eq!(ms.read_bytes(0x62000, 4).unwrap(), content[8192..8196].to_vec());
    assert!(ms.write_bytes(0x62000, &[0xaa, 0xbb]));
    ms.munmap(0x62000, 0x1000, &mut frames, &mut fs);
    assert_eq!(ms.area_count(), 2);
    let left = ms.area(0);
    let right = ms.area(1);
    assert_eq!((left.vaddr, left.pages.len()), (0x60000, 2));
    assert_eq!((right.vaddr, right.pages.len()), (0x63000, 1));
    assert_eq!(left.backend, Some(MemBackend { file: node, cursor: 0 }));
    assert_eq!(right.backend, Some(MemBackend { file: node, cursor: 3 * 4096 }));
    // The pages that stay hold what the file held.
    assert_eq!(ms.read_bytes(0x60000, 8192).unwrap(), content[..8192].to_vec());
    assert_eq!(ms.read_bytes(0x63000, 4096).unwrap(), content[12288..].to_vec());
    // The page that was given up was written back to the file.
    assert_eq!(fs.nodes[node].data[8192], 0xaa);
    assert_eq!(fs.nodes[node].data[8193], 0xbb);
    assert_eq!(fs.nodes[node].data[8194], content[8194]);
    assert_eq!(fs.nodes[node].data.len(), content.len());
}

#[test]
fn mmap_anonymous_lands_above_all_areas_and_faults_in_zeroed_pages() {
    let mut frames = FrameAllocator::new(PHYS_BASE + 0x10_0000, 256).unwrap();
    let mut fs = FileSystem::new();
    let mut ms = fresh(&mut frames);
    ms.new_region(0x10000, 0x1800, rw(), Some(&[1u8; 16]), None, &mut frames);
    let top = ms.max_va();
    assert_eq!(top, 0x12000);
    let at = ms.mmap(0, 8192, rw(), false, None, &mut frames, &mut fs);
    assert!(at as usize >= top + 4096);
    assert_eq!(at, 0x13000);
    for page in 0..2usize {
        let va = at as usize + page * 4096;
        assert_eq!(ms.peek(va), None);
        ms.handle_page_fault(va, MappingFlags::user_rwx(false, true, false), &mut frames, &fs);
        assert_eq!(ms.read_bytes(va, 4096).unwrap(), vec![0u8; 4096]);
    }
}

#[test]
fn mmap_fixed_at_zero_is_refused() {
    let mut frames = FrameAllocator::new(PHYS_BASE + 0x10_0000, 256).unwrap();
    let mut fs = FileSystem::new();
    let mut ms = fresh(&mut frames);
    assert_eq!(ms.mmap(0, 4096, rw(), true, None, &mut frames, &mut fs), -1);
    assert_eq!(ms.area_count(), 0);
}

#[test]
fn mmap_checks_tell_what_can_be_placed() {
    let mut frames = FrameAllocator::new(PHYS_BASE + 0x10_0000, 8).unwrap();
    let ms = fresh(&mut frames);
    let free = frames.free_frames();
    assert!(ms.mmap_check(0x1000, 4096, true, None, 0, free));
    assert!(!ms.mmap_check(0x1001, 4096, true, None, 0, free));
    assert!(!ms.mmap_check(KERNEL_BASE, 4096, true, None, 0, free));
    assert!(!ms.mmap_check(0x1000, 4096, true, Some(MemBackend::new(0, 0)), 0, free));
    assert!(ms.mmap_check(0x1000, 4096, true, Some(MemBackend::new(0, 0)), 1, free));
    assert!(ms.munmap_check(0x1000, 4096, free));
    assert!(!ms.munmap_check(0x1010, 4096, free));
}

#[test]
fn mprotect_changes_flags_of_the_containing_area() {
    let mut frames = FrameAllocator::new(PHYS_BASE + 0x10_0000, 256).unwrap();
    let fs = FileSystem::new();
    let mut ms = fresh(&mut frames);
    ms.new_region(0x10000, 0x3000, rw(), None, None, &mut frames);
    ms.handle_page_fault(0x10000, MappingFlags::user_rwx(true, false, false), &mut frames, &fs);
    let ro = MappingFlags::user_rwx(true, false, false);
    assert_eq!(ms.mprotect(0x11000, 0x1000, ro), 0);
    assert_eq!(ms.area(0).flags, ro);
    assert!(!ms.fault_check(0x11000, MappingFlags::user_rwx(false, true, false)));
    assert_eq!(ms.mprotect(0x12000, 0x2000, rw()), -1);
    assert_eq!(ms.area(0).flags, ro);
}

#[test]
fn clone_mapped_copies_resident_pages_and_keeps_lazy_ones() {
    let mut frames = FrameAllocator::new(PHYS_BASE + 0x10_0000, 256).unwrap();
    let fs = FileSystem::new();
    let mut ms = fresh(&mut frames);
    ms.new_region(0x10000, 0x3000, rw(), None, None, &mut frames);
    ms.handle_page_fault(0x11000, MappingFlags::user_rwx(false, true, false), &mut frames, &fs);
    assert!(ms.write_bytes(0x11000, b"parent"));
    let mut copy = ms.clone_mapped(&mut frames);
    assert_eq!(copy.area_count(), 1);
    assert!(copy.area(0).pages[0].is_none());
    assert_eq!(copy.read_bytes(0x11000, 6).unwrap(), b"parent".to_vec());
    assert_ne!(
        copy.area(0).pages[1].as_ref().unwrap().start_paddr(),
        ms.area(0).pages[1].as_ref().unwrap().start_paddr()
    );
    // Writes on one side are not seen on the other.
    assert!(copy.write_bytes(0x11000, b"child!"));
    assert_eq!(ms.read_bytes(0x11000, 6).unwrap(), b"parent".to_vec());
    assert!(ms.write_bytes(0x11000, b"PARENT"));
    assert_eq!(copy.read_bytes(0x11000, 6).unwrap(), b"child!".to_vec());
}

#[test]
fn area_set_relations() {
    let mut frames = FrameAllocator::new(PHYS_BASE, 16).unwrap();
    let mut pt = PageTable::try_new(&mut frames).unwrap();
    let area = MapArea::new_lazy(0x4000, 2, rw(), None, &mut pt);
    assert_eq!(area.size(), 0x2000);
    assert_eq!(area.end_va(), 0x6000);
    assert!(area.overlap_with(0x5000, 0x7000));
    assert!(area.overlap_with(0x3000, 0x4001));
    assert!(!area.overlap_with(0x6000, 0x7000));
    assert!(!area.overlap_with(0x3000, 0x4000));
    assert!(area.contained_in(0x4000, 0x6000));
    assert!(!area.contained_in(0x4000, 0x5fff));
    assert!(area.contains(0x4800, 0x5000));
    assert!(!area.contains(0x4800, 0x6001));
    assert_eq!(area.as_ptr(), 0x4000);
    let mut area = area;
    assert_eq!(area.as_mut_ptr(), 0x4000);
}

#[test]
fn backend_reads_and_writes_relative_to_its_cursor() {
    let mut fs = FileSystem::new();
    let node = fs.create(b"/f".to_vec(), b"0123456789".to_vec());
    let backend = MemBackend::new(node, 2);
    assert_eq!(backend.read_from_seek(SeekFrom::Current(3), 4, &fs), Ok(b"5678".to_vec()));
    assert_eq!(backend.read_from_seek(SeekFrom::Start(8), 4, &fs), Ok(b"89".to_vec()));
    assert_eq!(backend.read_from_seek(SeekFrom::End(-1), 4, &fs), Ok(b"9".to_vec()));
    assert!(backend.read_from_seek(SeekFrom::Current(-3), 4, &fs).is_err());
    let moved = backend.clone_with_delta(5);
    assert_eq!(moved, MemBackend { file: node, cursor: 7 });
    assert_eq!(moved.write_to_seek(SeekFrom::Current(1), b"XYZ", &mut fs), Ok(3));
    assert_eq!(fs.nodes[node].data, b"01234567XYZ".to_vec());
    assert!(MemBackend::new(5, 0).read_from_seek(SeekFrom::Current(0), 1, &fs).is_err());
}

#[test]
fn release_gives_up_all_areas_and_writes_them_back() {
    let mut frames = FrameAllocator::new(PHYS_BASE + 0x10_0000, 256).unwrap();
    let mut fs = FileSystem::new();
    let node = fs.create(b"/f".to_vec(), vec![1u8; 4096]);
    let mut ms = fresh(&mut frames);
    ms.new_region(0x10000, 0x2000, rw(), Some(&[5u8; 8]), None, &mut frames);
    ms.mmap(0x20000, 4096, rw(), true, Some(MemBackend::new(node, 0)), &mut frames, &mut fs);
    ms.handle_page_fault(0x20000, MappingFlags::user_rwx(false, true, false), &mut frames, &fs);
    assert!(ms.write_bytes(0x20010, &[9, 9]));
    assert_eq!(ms.resident_pages(), 3);
    assert_eq!(ms.split_frames(0x11000, 0x12000), 1);
    let fresh_left = frames.free_frames();
    ms.release(&mut frames, &mut fs);
    // The three resident pages go back to the pool; the table keeps its root.
    assert_eq!(frames.returned_frames(), 3);
    assert_eq!(frames.free_frames(), fresh_left);
    assert_eq!(ms.area_count(), 0);
    assert_eq!(ms.translate(0x10000), None);
    assert_eq!(ms.translate(0x20010), None);
    assert!(ms.translate(KERNEL_BASE).is_some());
    assert_eq!(fs.nodes[node].data[0x10..0x12], [9, 9]);
    assert_eq!(fs.nodes[node].data[0x12], 1);
}
