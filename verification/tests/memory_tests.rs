use nafuraito::cow::{dec_refcount, get_refcount, inc_refcount, init as refcount_init, is_cow_page, mark_cow, handle_cow_fault};
use nafuraito::demand_paging::{BackingKind, RegionTable};
use nafuraito::e820::{E820Entry, MemoryMap, MemoryMapStorage};
use nafuraito::guard_page::GuardRegistry;
use nafuraito::paging::{
    get_page_flags, map_page, paging_init, phys_to_virt, remap_page, translate_address, unmap_page, PageTableEntry,
    PageTableFlags, PagingManager,
    PhysAddr, PhysMemory, VirtAddr,
};
use nafuraito::pmm::PhysicalMemoryManager;
use nafuraito::zones::{MemoryZone, NumaNode};

const MIB: u64 = 0x10_0000;

fn raw_entry(base: u64, length: u64, kind: u32) -> Vec<u8> {
    let mut v = Vec::new();
    v.extend_from_slice(&base.to_le_bytes());
    v.extend_from_slice(&length.to_le_bytes());
    v.extend_from_slice(&kind.to_le_bytes());
    v.extend_from_slice(&1u32.to_le_bytes());
    v
}

fn usable(base: u64, length: u64) -> E820Entry {
    E820Entry { base, length, region_type: 1, acpi_extended: 1 }
}

/// 32 MiB of usable RAM, its page tables rooted at 0x1000 (inside the
/// reserved first MiB), a 4-level manager and the frame allocator.
fn machine() -> (PagingManager, PhysMemory, PhysicalMemoryManager) {
    let map = MemoryMap::from_entries(vec![usable(0, 32 * MIB)]);
    let pmm = match PhysicalMemoryManager::init(&map, 0x8000) {
        Ok(p) => p,
        Err(e) => panic!("init failed: {}", e.message),
    };
    let mem = PhysMemory::new(32 * MIB);
    let mgr = paging_init(0x1000, 0, 0, 0);
    (mgr, mem, pmm)
}

#[test]
fn e820_parse_and_queries() {
    let mut raw = Vec::new();
    raw.extend(raw_entry(0, 0x9_FC00, 1));
    raw.extend(raw_entry(0xF_0000, 0x1_0000, 2));
    raw.extend(raw_entry(MIB, 31 * MIB, 1));
    raw.extend(raw_entry(0, 0, 1));
    raw.extend(raw_entry(64 * MIB, MIB, 1));
    let map = MemoryMap::parse(&raw);
    assert_eq!(map.entry_count(), 3);
    assert_eq!(map.total_usable_memory(), 0x9_FC00 + 31 * MIB);
    assert_eq!(map.highest_usable_address(), 32 * MIB);
    assert_eq!(map.usable_region_count(), 2);
    assert_eq!(map.largest_usable_region().unwrap().base, MIB);
    assert_eq!(map.find_usable_region_containing(0xF_8000).map(|e| e.base), None);
    assert_eq!(map.find_usable_region_containing(2 * MIB).map(|e| e.base), Some(MIB));
    let mut store = MemoryMapStorage::new();
    assert!(store.memory_get().is_none());
    assert_eq!(store.memory_get_total_usable(), 0);
    store.memory_init(&raw);
    assert_eq!(store.memory_get_highest_address(), 32 * MIB);
    assert_eq!(store.memory_get().unwrap().entry_count(), 3);
}

#[test]
fn pmm_alloc_and_free_frames() {
    let (_, _, mut pmm) = machine();
    let before = pmm.free_frame_count();
    let f = pmm.alloc_frame().unwrap();
    // The first MiB, the kernel and the bitmap page (at 10 MiB) are taken.
    assert_eq!(f, 0xA0_1000);
    assert!(pmm.is_frame_used(f));
    assert_eq!(pmm.free_frame_count(), before - 1);
    assert!(pmm.free_frame(f).is_ok());
    assert!(!pmm.is_frame_used(f));
    assert_eq!(pmm.free_frame_count(), before);
    assert!(pmm.free_frame(f).is_err());
    assert!(pmm.free_frame(0x123).is_err());
    assert!(pmm.is_frame_used(0x1000));
    assert!(pmm.is_frame_used(31 * MIB));
}

#[test]
fn paging_map_translate_unmap() {
    let (mgr, mut mem, mut pmm) = machine();
    let va = VirtAddr::new(0x4000_0000);
    assert!(translate_address(&mgr, &mem, va).is_err());
    assert_eq!(map_page(&mgr, &mut mem, &mut pmm, va, PhysAddr::new(0x150_0000), PageTableFlags::kernel()), Ok(()));
    assert_eq!(translate_address(&mgr, &mem, VirtAddr::new(0x4000_0123)).map(|p| p.as_u64()), Ok(0x150_0123));
    assert!(get_page_flags(&mgr, &mem, va).unwrap().contains(0x2));
    // Mapping the same page again points it at the new frame.
    assert_eq!(map_page(&mgr, &mut mem, &mut pmm, va, PhysAddr::new(0x160_0000), PageTableFlags::kernel()), Ok(()));
    assert_eq!(translate_address(&mgr, &mem, VirtAddr::new(0x4000_0123)).map(|p| p.as_u64()), Ok(0x160_0123));
    // A misaligned frame and a non-canonical address are refused.
    assert!(map_page(&mgr, &mut mem, &mut pmm, VirtAddr::new(0x4000_1000), PhysAddr::new(0x150_0010),
        PageTableFlags::kernel()).is_err());
    assert!(translate_address(&mgr, &mem, VirtAddr::new(0x0000_8000_0000_0000)).is_err());
    assert_eq!(unmap_page(&mgr, &mut mem, &mut pmm, va), Ok(()));
    assert!(translate_address(&mgr, &mem, va).is_err());
    assert_eq!(phys_to_virt(0x1234), 0x1234);
    assert_eq!(phys_to_virt(0x1_0000_0000), 0);
}

#[test]
fn demand_regions_register_find_unmap() {
    let (mgr, mut mem, mut pmm) = machine();
    let mut t = RegionTable::new();
    let start = VirtAddr::new(0x5000_0000);
    let r = t.mmap(start, 3 * 4096 + 10, PageTableFlags::user(), BackingKind::ZeroFill);
    assert_eq!(r.map(|v| v.as_u64()), Ok(0x5000_0000));
    let reg = t.find_region(0x5000_2FFF).unwrap();
    assert_eq!((reg.start, reg.end), (0x5000_0000, 0x5000_4000));
    assert!(t.find_region(0x5000_4000).is_none());
    assert!(t.mmap(VirtAddr::new(0x5000_1000), 4096, PageTableFlags::user(), BackingKind::ZeroFill).is_err());
    assert!(t.munmap(&mgr, &mut mem, &mut pmm, start, 4 * 4096).is_ok());
    assert!(t.find_region(0x5000_0000).is_none());
}

#[test]
fn cow_marks_and_breaks_sharing() {
    let (mgr, mut mem, mut pmm) = machine();
    let mut refs = refcount_init();
    let va = VirtAddr::new(0x6000_0000);
    let frame = 0x180_0000;
    assert_eq!(map_page(&mgr, &mut mem, &mut pmm, va, PhysAddr::new(frame), PageTableFlags::user()), Ok(()));
    assert_eq!(mark_cow(&mgr, &mut mem, &mut refs, va), Ok(()));
    let flags = get_page_flags(&mgr, &mem, va).unwrap();
    assert!(is_cow_page(flags));
    assert!(!flags.contains(0x2));
    assert_eq!(get_refcount(&refs, PhysAddr::new(frame)), 1);
    // A single owner gets its page back writable, in place.
    assert_eq!(handle_cow_fault(&mgr, &mut mem, &mut pmm, &mut refs, va), Ok(()));
    let after = get_page_flags(&mgr, &mem, va).unwrap();
    assert!(after.contains(0x2));
    assert!(!is_cow_page(after));
    assert_eq!(translate_address(&mgr, &mem, va).map(|p| p.as_u64()), Ok(frame));
}

#[test]
fn guard_pages_are_found_by_any_address_inside() {
    let mut g = GuardRegistry::new();
    assert!(g.register_guard_page(0x7000_1234));
    assert!(g.is_guard_page(0x7000_1000));
    assert!(g.is_guard_page(0x7000_1FFF));
    assert!(!g.is_guard_page(0x7000_2000));
}

#[test]
fn guard_registry_accepts_sixty_four_pages_then_refuses() {
    let mut g = GuardRegistry::new();
    for i in 0..64u64 {
        assert!(g.register_guard_page(0x1000_0000 + i * 0x1000 + 8));
    }
    assert!(!g.register_guard_page(0x2000_0000));
    assert!(!g.is_guard_page(0x2000_0000));
    assert!(g.is_guard_page(0x1000_0000));
    assert!(g.is_guard_page(0x1003_FFFF));
    assert!(!g.is_guard_page(0x1004_0000));
}

#[test]
fn pmm_zone_and_node_statistics_follow_allocations() {
    let (_, _, mut pmm) = machine();
    let free = pmm.free_frame_count();
    let dma_free = pmm.zone_stats(MemoryZone::Dma).free_frames;
    // All 32 MiB lie below 4 GiB: 16 MiB in the DMA zone, the rest in DMA32.
    assert_eq!(dma_free + pmm.zone_stats(MemoryZone::Dma32).free_frames, free);
    assert_eq!(pmm.zone_stats(MemoryZone::Normal).free_frames, 0);
    let f = pmm.alloc_frame().unwrap();
    assert_eq!(pmm.zone_stats(MemoryZone::Dma).free_frames, dma_free - 1);
    assert_eq!(pmm.numa_free_memory(NumaNode::new(0)), pmm.free_memory());
    assert_eq!(pmm.numa_total_memory(NumaNode::new(0)), pmm.total_memory());
    assert_eq!(pmm.numa_node_count(), 1);
    assert_eq!(pmm.numa_free_memory(NumaNode::new(1)), 0);
    let d = pmm.alloc_dma32_frame().unwrap();
    assert!(d < 16 * MIB);
    assert_eq!(pmm.zone_stats(MemoryZone::Dma).free_frames, dma_free - 2);
    assert!(pmm.free_frame(f).is_ok());
    assert!(pmm.free_frame(d).is_ok());
    assert_eq!(pmm.zone_stats(MemoryZone::Dma).free_frames, dma_free);
    let run = pmm.alloc_frames_contiguous(4, Some(MemoryZone::Dma32)).unwrap();
    assert!(run >= 16 * MIB);
    assert_eq!(pmm.free_frame_count(), free - 4);
    assert!(pmm.free_frames_contiguous(run, 4).is_ok());
    assert_eq!(pmm.free_frame_count(), free);
    assert!(!pmm.is_memory_critical());
}

#[test]
fn canonical_addresses_and_entry_flags() {
    assert!(VirtAddr::new(0x0000_7FFF_FFFF_FFFF).is_canonical_la48());
    assert!(!VirtAddr::new(0x0000_8000_0000_0000).is_canonical_la48());
    assert!(VirtAddr::new(0xFFFF_8000_0000_0000).is_canonical_la48());
    assert!(!VirtAddr::new(0x0100_0000_0000_0000).is_canonical_la57());
    assert!(VirtAddr::new(0xFF00_0000_0000_0000).is_canonical_la57());
    assert!(VirtAddr::new(0x00FF_FFFF_FFFF_FFFF).is_canonical_la57());
    let e = PageTableEntry(0x8000_0000_0020_3063);
    assert_eq!(e.flags().raw(), 0x8000_0000_0000_0063);
    assert_eq!(e.address(), 0x20_3000);
}

#[test]
fn refcount_saturates_at_zero() {
    let mut t = refcount_init();
    let p = PhysAddr::new(0x5000);
    assert_eq!(dec_refcount(&mut t, p), 0);
    assert_eq!(get_refcount(&t, p), 0);
    assert_eq!(inc_refcount(&mut t, p), 1);
}

#[test]
fn remapping_inside_a_huge_page_is_refused() {
    let (mgr, mut mem, _pmm) = machine();
    // A 2 MiB page for 0x4000_0000: PML4 at 0x1000 -> PDPT 0x2000 -> PD 0x3000.
    assert!(mem.write_u64(0x1000, 0x2000 | 0x3));
    assert!(mem.write_u64(0x2000 + 8, 0x3000 | 0x3));
    assert!(mem.write_u64(0x3000, 0x20_0000 | 0x83));
    let va = VirtAddr::new(0x4000_1000);
    assert_eq!(translate_address(&mgr, &mem, va).map(|p| p.as_u64()), Ok(0x20_1000));
    assert!(remap_page(&mgr, &mut mem, va, PhysAddr::new(0x50_0000), PageTableFlags::from_raw(0x3)).is_err());
    assert_eq!(translate_address(&mgr, &mem, va).map(|p| p.as_u64()), Ok(0x20_1000));
}
