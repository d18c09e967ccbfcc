//! Demand paging: a fixed registry of virtual regions whose pages are
//! allocated and mapped on first access.
use vstd::prelude::*;
use crate::paging::{PageTableFlags, VirtAddr, PhysAddr, PhysMemory, PagingManager, PAGE_SIZE, WalkEnd, walk, canonical,
    top_level, leaf_phys, unmap_post, translate_address, unmap_page, map_post, map_page, table_ok};
use crate::pmm::{PhysicalMemoryManager, lemma_wf_exact};
use crate::paging::lemma_page_mask;
use crate::memory_error::MemoryError;

verus! {

/// Number of region slots.
pub const MAX_REGIONS: usize = 64;

/// File backing of a region: the file is named by a handle its owner
/// resolves (the file object and its read-at routine).
#[derive(Clone, Copy, Debug)]
pub struct FileBacking {
    /// Handle of the file object.
    pub ctx: u64,
    /// Offset in the file of the region's first byte (page-aligned).
    pub file_offset: u64,
    /// Size of the file in bytes.
    pub file_size: u64,
}

/// What fills a region's pages on first access.
#[derive(Clone, Copy, Debug)]
pub enum BackingKind {
    /// A zeroed page.
    ZeroFill,
    /// The file's contents at the page's offset, zero past the end of file.
    FileBacked(FileBacking),
}

/// A demand-paged virtual region `[start, end)`.
#[derive(Clone, Copy, Debug)]
pub struct VmRegion {
    pub start: u64,
    pub end: u64,
    pub flags: PageTableFlags,
    pub backing: BackingKind,
}

/// The registry of demand-paged regions: a fixed number of slots.
pub struct RegionTable {
    slots: Vec<Option<VmRegion>>,
}

impl View for RegionTable {
    type V = Seq<Option<VmRegion>>;

    closed spec fn view(&self) -> Seq<Option<VmRegion>> {
        self.slots@
    }
}

/// `a` rounded down to a page boundary.
pub open spec fn page_down(a: u64) -> u64 {
    (a - a % 4096) as u64
}

/// `a` rounded up to a page boundary.
pub open spec fn page_up(a: u64) -> u64 {
    ((a + 4095) / 4096 * 4096) as u64
}

/// `[a_start, a_end)` and `[b_start, b_end)` intersect.
pub open spec fn overlap(a_start: u64, a_end: u64, b_start: u64, b_end: u64) -> bool {
    a_start < b_end && b_start < a_end
}

/// Slot `i` is the first free slot of `s`.
pub open spec fn first_free(s: Seq<Option<VmRegion>>, i: int) -> bool {
    &&& 0 <= i < s.len()
    &&& s[i] is None
    &&& forall|j: int| 0 <= j < i ==> #[trigger] s[j] is Some
}

/// `s` has a free slot.
pub open spec fn has_free(s: Seq<Option<VmRegion>>) -> bool {
    exists|i: int| 0 <= i < s.len() && #[trigger] s[i] is None
}

/// Slot `i` of `s` holds a region containing `addr`.
pub open spec fn slot_contains(s: Seq<Option<VmRegion>>, i: int, addr: u64) -> bool {
    s[i] matches Some(r) && r.start <= addr < r.end
}

/// Slot `i` of `s` holds a region intersecting `[start, end)`.
pub open spec fn slot_overlaps(s: Seq<Option<VmRegion>>, i: int, start: u64, end: u64) -> bool {
    s[i] matches Some(r) && overlap(start, end, r.start, r.end)
}

/// Page-aligned bounds `[start, end)` covering `size` bytes from `start`.
pub open spec fn region_bounds(start: u64, size: usize) -> (u64, u64) {
    (page_down(start), page_up((start + size) as u64))
}

/// Round `addr` down to a page boundary.
fn align_down(addr: u64) -> (r: u64)
    ensures
        r == page_down(addr),
{
    proof {
        lemma_page_mask(addr);
    }
    addr & !((PAGE_SIZE as u64) - 1)
}

/// Round `addr` up to a page boundary.
fn align_up(addr: u64) -> (r: u64)
    requires
        addr + 4095 <= u64::MAX,
    ensures
        r == page_up(addr),
{
    let b: u64 = addr + 4095;
    proof {
        lemma_page_mask(b);
    }
    (addr + ((PAGE_SIZE as u64) - 1)) & !((PAGE_SIZE as u64) - 1)
}

/// Whether the two ranges intersect.
fn ranges_overlap(a_start: u64, a_end: u64, b_start: u64, b_end: u64) -> (r: bool)
    ensures
        r == overlap(a_start, a_end, b_start, b_end),
{
    a_start < b_end && b_start < a_end
}

impl RegionTable {
    /// The registry has its fixed number of slots.
    pub closed spec fn wf(&self) -> bool {
        self.slots@.len() == MAX_REGIONS
    }

    /// An empty registry.
    pub fn new() -> (r: RegionTable)
        ensures
            r.wf(),
            forall|i: int| 0 <= i < MAX_REGIONS ==> #[trigger] r@[i] is None,
    {
        let mut slots: Vec<Option<VmRegion>> = Vec::new();
        let mut i: usize = 0;
        while i < MAX_REGIONS
            invariant
                i <= MAX_REGIONS,
                slots@.len() == i,
                forall|j: int| 0 <= j < i ==> #[trigger] slots@[j] is None,
            decreases MAX_REGIONS - i,
        {
            slots.push(None);
            i += 1;
        }
        RegionTable { slots }
    }

    /// Slot `i`, if there is one.
    pub fn slot(&self, i: usize) -> (r: Option<VmRegion>)
        requires
            self.wf(),
        ensures
            i < MAX_REGIONS ==> r == self@[i as int],
            i >= MAX_REGIONS ==> r is None,
    {
        if i < self.slots.len() {
            self.slots[i]
        } else {
            None
        }
    }

    /// Index of the first free slot, if any.
    fn free_slot(&self) -> (r: Option<usize>)
        requires
            self.wf(),
        ensures
            r matches Some(i) ==> first_free(self@, i as int),
            r is None <==> !has_free(self@),
    {
        let mut i: usize = 0;
        while i < self.slots.len()
            invariant
                self.wf(),
                i <= MAX_REGIONS,
                forall|j: int| 0 <= j < i ==> #[trigger] self@[j] is Some,
            decreases MAX_REGIONS - i,
        {
            if self.slots[i].is_none() {
                return Some(i);
            }
            i += 1;
        }
        None
    }
}

/// Error text when `start + size` overflows.
pub open spec fn size_overflow_msg() -> Seq<char> {
    "Size overflow"@
}

/// Error text for an empty range.
pub open spec fn invalid_size_msg() -> Seq<char> {
    "Invalid region size"@
}

/// Error text when every slot is taken.
pub open spec fn no_slots_msg() -> Seq<char> {
    "No free region slots"@
}

/// Error text for an unaligned file offset.
pub open spec fn file_offset_msg() -> Seq<char> {
    "File offset must be page-aligned"@
}

/// Error text for a range that overlaps a registered region.
pub open spec fn overlaps_msg() -> Seq<char> {
    "Region overlaps existing mapping"@
}

/// The computation of `size` bytes from `start` does not trip the overflow
/// the page rounding would hit.
pub open spec fn bounds_ok(start: u64, size: usize) -> bool {
    start + size <= u64::MAX ==> start + size + 4095 <= u64::MAX
}

/// The page-aligned bounds of `size` bytes from `start`, or the error text.
fn region_range(start: VirtAddr, size: usize) -> (r: Result<(u64, u64), &'static str>)
    requires
        bounds_ok(start.addr, size),
    ensures
        start.addr + size > u64::MAX ==> (r matches Err(e) && e@ == size_overflow_msg()),
        start.addr + size <= u64::MAX && page_up((start.addr + size) as u64) <= page_down(start.addr) ==> (r matches Err(e)
            && e@ == invalid_size_msg()),
        start.addr + size <= u64::MAX && page_up((start.addr + size) as u64) > page_down(start.addr) ==> r == Ok::<
            (u64, u64),
            &'static str,
        >(region_bounds(start.addr, size)),
{
    let start_addr = align_down(start.as_u64());
    let end = match start.as_u64().checked_add(size as u64) {
        Some(e) => e,
        None => {
            return Err("Size overflow");
        },
    };
    let end_addr = align_up(end);
    if end_addr <= start_addr {
        return Err("Invalid region size");
    }
    Ok((start_addr, end_addr))
}

impl RegionTable {
    /// Register the page-aligned region covering `size` bytes from `start`
    /// in the first free slot; overlaps are not checked.
    pub fn register_region(&mut self, start: VirtAddr, size: usize, flags: PageTableFlags, backing: BackingKind) -> (r:
        Result<(), &'static str>)
        requires
            old(self).wf(),
            bounds_ok(start.addr, size),
        ensures
            final(self).wf(),
            start.addr + size > u64::MAX ==> (r matches Err(e) && e@ == size_overflow_msg()),
            start.addr + size <= u64::MAX && page_up((start.addr + size) as u64) <= page_down(start.addr) ==> (r matches Err(
                e,
            ) && e@ == invalid_size_msg()),
            start.addr + size <= u64::MAX && page_up((start.addr + size) as u64) > page_down(start.addr) && !has_free(
                old(self)@,
            ) ==> (r matches Err(e) && e@ == no_slots_msg()),
            r is Err ==> final(self)@ == old(self)@,
            r is Ok ==> start.addr + size <= u64::MAX && page_up((start.addr + size) as u64) > page_down(start.addr)
                && exists|i: int| #[trigger] first_free(old(self)@, i) && final(self)@ == old(self)@.update(
                i,
                Some(
                    VmRegion {
                        start: region_bounds(start.addr, size).0,
                        end: region_bounds(start.addr, size).1,
                        flags,
                        backing,
                    },
                ),
            ),
            start.addr + size <= u64::MAX && page_up((start.addr + size) as u64) > page_down(start.addr) && has_free(
                old(self)@,
            ) ==> r is Ok,
    {
        let (start_addr, end_addr) = match region_range(start, size) {
            Ok(b) => b,
            Err(e) => {
                return Err(e);
            },
        };
        match self.free_slot() {
            Some(i) => {
                self.slots.set(i, Some(VmRegion { start: start_addr, end: end_addr, flags, backing }));
                Ok(())
            },
            None => Err("No free region slots"),
        }
    }

    /// Register a file-backed region; the file offset must be page-aligned.
    pub fn register_file_region(&mut self, start: VirtAddr, size: usize, flags: PageTableFlags, file_backing: FileBacking)
        -> (r: Result<(), &'static str>)
        requires
            old(self).wf(),
            bounds_ok(start.addr, size),
        ensures
            final(self).wf(),
            file_backing.file_offset % 4096 != 0 ==> (r matches Err(e) && e@ == file_offset_msg()) && final(self)@
                == old(self)@,
            file_backing.file_offset % 4096 == 0 ==> {
                &&& start.addr + size > u64::MAX ==> (r matches Err(e) && e@ == size_overflow_msg())
                &&& start.addr + size <= u64::MAX && page_up((start.addr + size) as u64) <= page_down(start.addr)
                    ==> (r matches Err(e) && e@ == invalid_size_msg())
                &&& start.addr + size <= u64::MAX && page_up((start.addr + size) as u64) > page_down(start.addr)
                    && !has_free(old(self)@) ==> (r matches Err(e) && e@ == no_slots_msg())
                &&& r is Err ==> final(self)@ == old(self)@
                &&& r is Ok ==> exists|i: int| #[trigger] first_free(old(self)@, i) && final(self)@ == old(self)@.update(
                    i,
                    Some(
                        VmRegion {
                            start: region_bounds(start.addr, size).0,
                            end: region_bounds(start.addr, size).1,
                            flags,
                            backing: BackingKind::FileBacked(file_backing),
                        },
                    ),
                )
                &&& start.addr + size <= u64::MAX && page_up((start.addr + size) as u64) > page_down(start.addr)
                    && has_free(old(self)@) ==> r is Ok
            },
    {
        if file_backing.file_offset % (PAGE_SIZE as u64) != 0 {
            return Err("File offset must be page-aligned");
        }
        self.register_region(start, size, flags, BackingKind::FileBacked(file_backing))
    }

    /// Whether some region intersects `[start, end)`.
    fn any_overlap(&self, start: u64, end: u64) -> (r: bool)
        requires
            self.wf(),
        ensures
            r == exists|i: int| 0 <= i < MAX_REGIONS && #[trigger] slot_overlaps(self@, i, start, end),
    {
        let mut i: usize = 0;
        while i < self.slots.len()
            invariant
                self.wf(),
                i <= MAX_REGIONS,
                forall|j: int| 0 <= j < i ==> !#[trigger] slot_overlaps(self@, j, start, end),
            decreases MAX_REGIONS - i,
        {
            if let Some(region) = self.slots[i] {
                if ranges_overlap(start, end, region.start, region.end) {
                    assert(slot_overlaps(self@, i as int, start, end));
                    return true;
                }
            }
            i += 1;
        }
        false
    }

    /// Create a demand-paged mapping of `size` bytes at `start` (rounded out
    /// to pages); it may not overlap a registered region. Returns the aligned
    /// start.
    pub fn mmap(&mut self, start: VirtAddr, size: usize, flags: PageTableFlags, backing: BackingKind) -> (r: Result<
        VirtAddr,
        &'static str,
    >)
        requires
            old(self).wf(),
            bounds_ok(start.addr, size),
        ensures
            final(self).wf(),
            r is Err ==> final(self)@ == old(self)@,
            size == 0 ==> (r matches Err(e) && e@ == invalid_size_msg()),
            size != 0 && (backing matches BackingKind::FileBacked(f) && f.file_offset % 4096 != 0) ==> (r matches Err(e)
                && e@ == file_offset_msg()),
            size != 0 && !(backing matches BackingKind::FileBacked(f) && f.file_offset % 4096 != 0) ==> {
                let (s, e) = region_bounds(start.addr, size);
                let valid = start.addr + size <= u64::MAX && page_up((start.addr + size) as u64) > page_down(start.addr);
                let clash = exists|i: int| 0 <= i < MAX_REGIONS && #[trigger] slot_overlaps(old(self)@, i, s, e);
                &&& start.addr + size > u64::MAX ==> (r matches Err(x) && x@ == size_overflow_msg())
                &&& start.addr + size <= u64::MAX && page_up((start.addr + size) as u64) <= page_down(start.addr)
                    ==> (r matches Err(x) && x@ == invalid_size_msg())
                &&& valid && clash ==> (r matches Err(x) && x@ == overlaps_msg())
                &&& valid && !clash && !has_free(old(self)@) ==> (r matches Err(x) && x@ == no_slots_msg())
                &&& valid && !clash && has_free(old(self)@) ==> r == Ok::<VirtAddr, &'static str>(VirtAddr { addr: s })
                &&& r is Ok ==> exists|i: int| #[trigger] first_free(old(self)@, i) && final(self)@ == old(self)@.update(
                    i,
                    Some(VmRegion { start: s, end: e, flags, backing }),
                )
            },
    {
        if size == 0 {
            return Err("Invalid region size");
        }
        if let BackingKind::FileBacked(file) = backing {
            if file.file_offset % (PAGE_SIZE as u64) != 0 {
                return Err("File offset must be page-aligned");
            }
        }
        let (start_addr, end_addr) = match region_range(start, size) {
            Ok(b) => b,
            Err(e) => {
                return Err(e);
            },
        };
        if self.any_overlap(start_addr, end_addr) {
            return Err("Region overlaps existing mapping");
        }
        match self.free_slot() {
            Some(i) => {
                self.slots.set(i, Some(VmRegion { start: start_addr, end: end_addr, flags, backing }));
                Ok(VirtAddr::new(start_addr))
            },
            None => Err("No free region slots"),
        }
    }

    /// `mmap` of a file-backed region; the file offset must be page-aligned.
    pub fn mmap_file(&mut self, start: VirtAddr, size: usize, flags: PageTableFlags, file_backing: FileBacking) -> (r:
        Result<VirtAddr, &'static str>)
        requires
            old(self).wf(),
            bounds_ok(start.addr, size),
        ensures
            final(self).wf(),
            r is Err ==> final(self)@ == old(self)@,
            file_backing.file_offset % 4096 != 0 ==> (r matches Err(e) && e@ == file_offset_msg()),
            file_backing.file_offset % 4096 == 0 && size == 0 ==> (r matches Err(e) && e@ == invalid_size_msg()),
            file_backing.file_offset % 4096 == 0 && size != 0 ==> {
                let (s, e) = region_bounds(start.addr, size);
                let valid = start.addr + size <= u64::MAX && page_up((start.addr + size) as u64) > page_down(start.addr);
                let clash = exists|i: int| 0 <= i < MAX_REGIONS && #[trigger] slot_overlaps(old(self)@, i, s, e);
                &&& start.addr + size > u64::MAX ==> (r matches Err(x) && x@ == size_overflow_msg())
                &&& start.addr + size <= u64::MAX && page_up((start.addr + size) as u64) <= page_down(start.addr)
                    ==> (r matches Err(x) && x@ == invalid_size_msg())
                &&& valid && clash ==> (r matches Err(x) && x@ == overlaps_msg())
                &&& valid && !clash && !has_free(old(self)@) ==> (r matches Err(x) && x@ == no_slots_msg())
                &&& valid && !clash && has_free(old(self)@) ==> r == Ok::<VirtAddr, &'static str>(VirtAddr { addr: s })
                &&& r is Ok ==> exists|i: int| #[trigger] first_free(old(self)@, i) && final(self)@ == old(self)@.update(
                    i,
                    Some(VmRegion { start: s, end: e, flags, backing: BackingKind::FileBacked(file_backing) }),
                )
            },
    {
        if file_backing.file_offset % (PAGE_SIZE as u64) != 0 {
            return Err("File offset must be page-aligned");
        }
        self.mmap(start, size, flags, BackingKind::FileBacked(file_backing))
    }

    /// The region of the first slot containing `addr`, if any.
    pub fn find_region(&self, addr: u64) -> (r: Option<VmRegion>)
        requires
            self.wf(),
        ensures
            r is None <==> forall|i: int| 0 <= i < MAX_REGIONS ==> !#[trigger] slot_contains(self@, i, addr),
            r matches Some(reg) ==> exists|i: int|
                0 <= i < MAX_REGIONS && #[trigger] slot_contains(self@, i, addr) && self@[i] == Some(reg) && forall|j: int|
                    0 <= j < i ==> !#[trigger] slot_contains(self@, j, addr),
    {
        let mut i: usize = 0;
        while i < self.slots.len()
            invariant
                self.wf(),
                i <= MAX_REGIONS,
                forall|j: int| 0 <= j < i ==> !#[trigger] slot_contains(self@, j, addr),
            decreases MAX_REGIONS - i,
        {
            if let Some(region) = self.slots[i] {
                if addr >= region.start && addr < region.end {
                    assert(slot_contains(self@, i as int, addr));
                    return Some(region);
                }
            }
            i += 1;
        }
        None
    }
}

/// Error text when no region intersects the range.
pub open spec fn not_in_region_msg() -> Seq<char> {
    "Address not in demand region"@
}

/// Error text when freeing an unmapped page's frame fails.
pub open spec fn free_frame_failed_msg() -> Seq<char> {
    "Failed to free frame"@
}

/// Error text when a split region has no slot for its upper part.
pub open spec fn no_split_slot_msg() -> Seq<char> {
    "No free region slots for split"@
}

/// One page of `munmap`: when `va` translates, the page is unmapped (empty
/// tables freed) and the frame it translated to is freed; otherwise nothing
/// happens.
pub open spec fn munmap_page_step(
    manager: &PagingManager,
    mem0: Seq<u64>,
    pmm0: &PhysicalMemoryManager,
    mem1: Seq<u64>,
    pmm1: &PhysicalMemoryManager,
    va: u64,
    r: Result<(), &'static str>,
) -> bool {
    let root = manager.root_spec();
    let top = top_level(manager.mode_spec());
    if canonical(va, manager.mode_spec()) && walk(mem0, root, top, va, true) is Leaf {
        let phys = leaf_phys(walk(mem0, root, top, va, true)->Leaf_0, walk(mem0, root, top, va, true)->Leaf_1, va);
        exists|mem_m: Seq<u64>, pmm_m: PhysicalMemoryManager, r_u: Result<(), &'static str>|
            #[trigger] unmap_post(manager, mem0, pmm0, mem_m, &pmm_m, va, true, r_u) && mem1 == mem_m && match r_u {
                Err(_) => r == r_u && *pmm1 == pmm_m,
                Ok(_) => exists|r_f: Result<(), MemoryError>|
                    #[trigger] pmm_m.free_frame_post(pmm1, page_down(phys), r_f) && (r is Ok <==> r_f is Ok) && (
                    r matches Err(x) ==> x@ == free_frame_failed_msg()),
            }
    } else {
        r is Ok && mem1 == mem0 && *pmm1 == *pmm0
    }
}

/// Outcome of the registry update of `munmap([s, e))` from `old` to `new`:
/// no slot meets `[s, e)`, every region is part of an old region with the
/// same flags and backing, and every address outside `[s, e)` an old region
/// held is still held.
pub open spec fn regions_cut(old: Seq<Option<VmRegion>>, new: Seq<Option<VmRegion>>, s: u64, e: u64) -> bool {
    &&& new.len() == old.len()
    &&& forall|i: int| 0 <= i < new.len() ==> !#[trigger] slot_overlaps(new, i, s, e)
    &&& forall|i: int|
        0 <= i < new.len() && #[trigger] new[i] is Some ==> exists|j: int|
            0 <= j < old.len() && #[trigger] old[j] is Some && old[j]->Some_0.flags == new[i]->Some_0.flags
                && old[j]->Some_0.backing == new[i]->Some_0.backing && old[j]->Some_0.start <= new[i]->Some_0.start
                && new[i]->Some_0.end <= old[j]->Some_0.end
    &&& forall|a: u64, j: int|
        !(s <= a < e) && 0 <= j < old.len() && #[trigger] slot_contains(old, j, a) ==> exists|i: int|
            0 <= i < new.len() && #[trigger] slot_contains(new, i, a)
}

impl RegionTable {
    /// Remove `[s, e)` from every region: drop the regions it covers, shrink
    /// those it covers at one end, and split those it covers in the middle,
    /// the upper part going to the first free slot.
    fn cut_regions(&mut self, s: u64, e: u64) -> (r: Result<(), &'static str>)
        requires
            old(self).wf(),
        ensures
            final(self).wf(),
            r is Ok ==> regions_cut(old(self)@, final(self)@, s, e),
            r matches Err(x) ==> x@ == no_split_slot_msg() && exists|j: int|
                0 <= j < MAX_REGIONS && #[trigger] old(self)@[j] is Some && old(self)@[j]->Some_0.start < s && e
                    < old(self)@[j]->Some_0.end,
    {
        let ghost old_slots = self@;
        let mut i: usize = 0;
        while i < self.slots.len()
            invariant
                self.wf(),
                old_slots == old(self)@,
                old_slots.len() == MAX_REGIONS,
                i <= MAX_REGIONS,
                forall|j: int| 0 <= j < MAX_REGIONS && #[trigger] slot_overlaps(self@, j, s, e) ==> j >= i && self@[j]
                    == old_slots[j],
                forall|k: int|
                    0 <= k < MAX_REGIONS && #[trigger] self@[k] is Some ==> exists|j: int|
                        0 <= j < MAX_REGIONS && #[trigger] old_slots[j] is Some && old_slots[j]->Some_0.flags
                            == self@[k]->Some_0.flags && old_slots[j]->Some_0.backing == self@[k]->Some_0.backing
                            && old_slots[j]->Some_0.start <= self@[k]->Some_0.start && self@[k]->Some_0.end
                            <= old_slots[j]->Some_0.end,
                forall|a: u64, j: int|
                    !(s <= a < e) && 0 <= j < MAX_REGIONS && #[trigger] slot_contains(old_slots, j, a) ==> exists|k: int|
                        0 <= k < MAX_REGIONS && #[trigger] slot_contains(self@, k, a),
            decreases MAX_REGIONS - i,
        {
            let ghost cur = self@;
            if let Some(region) = self.slots[i] {
                if ranges_overlap(s, e, region.start, region.end) {
                    proof {
                        assert(slot_overlaps(cur, i as int, s, e));
                        assert(cur[i as int] == old_slots[i as int]);
                    }
                    if s <= region.start && e >= region.end {
                        self.slots.set(i, None);
                        proof {
                            assert forall|a: u64, j: int|
                                !(s <= a < e) && 0 <= j < MAX_REGIONS && #[trigger] slot_contains(old_slots, j, a) implies exists|k: int|
                                    0 <= k < MAX_REGIONS && #[trigger] slot_contains(self@, k, a) by {
                                let k = choose|k: int| 0 <= k < MAX_REGIONS && #[trigger] slot_contains(cur, k, a);
                                assert(k != i);
                                assert(slot_contains(self@, k, a));
                            }
                            assert forall|k: int| 0 <= k < MAX_REGIONS && #[trigger] self@[k] is Some implies exists|j: int|
                                0 <= j < MAX_REGIONS && #[trigger] old_slots[j] is Some && old_slots[j]->Some_0.flags
                                    == self@[k]->Some_0.flags && old_slots[j]->Some_0.backing == self@[k]->Some_0.backing
                                    && old_slots[j]->Some_0.start <= self@[k]->Some_0.start && self@[k]->Some_0.end
                                    <= old_slots[j]->Some_0.end by {
                                assert(cur[k] is Some);
                            }
                        }
                    } else if s <= region.start && e < region.end {
                        self.slots.set(i, Some(VmRegion { start: e, end: region.end, flags: region.flags, backing: region.backing }));
                        proof {
                            assert forall|a: u64, j: int|
                                !(s <= a < e) && 0 <= j < MAX_REGIONS && #[trigger] slot_contains(old_slots, j, a) implies exists|k: int|
                                    0 <= k < MAX_REGIONS && #[trigger] slot_contains(self@, k, a) by {
                                let k = choose|k: int| 0 <= k < MAX_REGIONS && #[trigger] slot_contains(cur, k, a);
                                assert(slot_contains(self@, k, a));
                            }
                            assert forall|k: int| 0 <= k < MAX_REGIONS && #[trigger] self@[k] is Some implies exists|j: int|
                                0 <= j < MAX_REGIONS && #[trigger] old_slots[j] is Some && old_slots[j]->Some_0.flags
                                    == self@[k]->Some_0.flags && old_slots[j]->Some_0.backing == self@[k]->Some_0.backing
                                    && old_slots[j]->Some_0.start <= self@[k]->Some_0.start && self@[k]->Some_0.end
                                    <= old_slots[j]->Some_0.end by {
                                if k == i {
                                    assert(old_slots[i as int] is Some);
                                } else {
                                    assert(cur[k] is Some);
                                }
                            }
                        }
                    } else if s > region.start && e >= region.end {
                        self.slots.set(i, Some(VmRegion { start: region.start, end: s, flags: region.flags, backing: region.backing }));
                        proof {
                            assert forall|a: u64, j: int|
                                !(s <= a < e) && 0 <= j < MAX_REGIONS && #[trigger] slot_contains(old_slots, j, a) implies exists|k: int|
                                    0 <= k < MAX_REGIONS && #[trigger] slot_contains(self@, k, a) by {
                                let k = choose|k: int| 0 <= k < MAX_REGIONS && #[trigger] slot_contains(cur, k, a);
                                assert(slot_contains(self@, k, a));
                            }
                            assert forall|k: int| 0 <= k < MAX_REGIONS && #[trigger] self@[k] is Some implies exists|j: int|
                                0 <= j < MAX_REGIONS && #[trigger] old_slots[j] is Some && old_slots[j]->Some_0.flags
                                    == self@[k]->Some_0.flags && old_slots[j]->Some_0.backing == self@[k]->Some_0.backing
                                    && old_slots[j]->Some_0.start <= self@[k]->Some_0.start && self@[k]->Some_0.end
                                    <= old_slots[j]->Some_0.end by {
                                if k == i {
                                    assert(old_slots[i as int] is Some);
                                } else {
                                    assert(cur[k] is Some);
                                }
                            }
                        }
                    } else {
                        let right = VmRegion { start: e, end: region.end, flags: region.flags, backing: region.backing };
                        self.slots.set(i, Some(VmRegion { start: region.start, end: s, flags: region.flags, backing: region.backing }));
                        let ghost mid = self@;
                        match self.free_slot() {
                            Some(k) => {
                                self.slots.set(k, Some(right));
                                proof {
                                    assert(k != i);
                                    assert forall|a: u64, j: int|
                                        !(s <= a < e) && 0 <= j < MAX_REGIONS && #[trigger] slot_contains(old_slots, j, a) implies exists|k2: int|
                                            0 <= k2 < MAX_REGIONS && #[trigger] slot_contains(self@, k2, a) by {
                                        let k2 = choose|k2: int| 0 <= k2 < MAX_REGIONS && #[trigger] slot_contains(cur, k2, a);
                                        if k2 == i {
                                            if a < s {
                                                assert(slot_contains(self@, i as int, a));
                                            } else {
                                                assert(slot_contains(self@, k as int, a));
                                            }
                                        } else {
                                            assert(slot_contains(self@, k2, a));
                                        }
                                    }
                                    assert forall|k2: int| 0 <= k2 < MAX_REGIONS && #[trigger] self@[k2] is Some implies exists|j: int|
                                        0 <= j < MAX_REGIONS && #[trigger] old_slots[j] is Some && old_slots[j]->Some_0.flags
                                            == self@[k2]->Some_0.flags && old_slots[j]->Some_0.backing == self@[k2]->Some_0.backing
                                            && old_slots[j]->Some_0.start <= self@[k2]->Some_0.start && self@[k2]->Some_0.end
                                            <= old_slots[j]->Some_0.end by {
                                        if k2 == i || k2 == k {
                                            assert(old_slots[i as int] is Some);
                                        } else {
                                            assert(cur[k2] is Some);
                                        }
                                    }
                                    assert forall|j: int| 0 <= j < MAX_REGIONS && #[trigger] slot_overlaps(self@, j, s, e) implies j >= i + 1
                                        && self@[j] == old_slots[j] by {
                                        assert(j != k);
                                        assert(j != i);
                                        assert(slot_overlaps(cur, j, s, e));
                                    }
                                }
                            },
                            None => {
                                proof {
                                    assert(old_slots[i as int] is Some);
                                }
                                return Err("No free region slots for split");
                            },
                        }
                    }
                }
            }
            proof {
                assert forall|j: int| 0 <= j < MAX_REGIONS && #[trigger] slot_overlaps(self@, j, s, e) implies j >= i + 1
                    && self@[j] == old_slots[j] by {
                    if j != i && self@[j] == cur[j] {
                        assert(slot_overlaps(cur, j, s, e));
                    }
                }
            }
            i += 1;
        }
        Ok(())
    }
}

/// One page of `munmap`, as `munmap_page_step` states it.
#[verifier::opaque]
pub open spec fn munmap_step(
    manager: &PagingManager,
    mem0: Seq<u64>,
    pmm0: &PhysicalMemoryManager,
    mem1: Seq<u64>,
    pmm1: &PhysicalMemoryManager,
    va: u64,
    r: Result<(), &'static str>,
) -> bool {
    munmap_page_step(manager, mem0, pmm0, mem1, pmm1, va, r)
}

/// `ms` and `ps` are the memories and allocators of the pages of `munmap`
/// from `va0`, stopping at the first error `r` or after `n` pages.
pub open spec fn munmap_steps(
    manager: &PagingManager,
    ms: Seq<Seq<u64>>,
    ps: Seq<PhysicalMemoryManager>,
    va0: u64,
    n: nat,
    r: Result<(), &'static str>,
) -> bool {
    &&& ms.len() == ps.len()
    &&& 1 <= ms.len() <= n + 1
    &&& r is Ok ==> ms.len() == n + 1
    &&& r is Err ==> ms.len() >= 2
    &&& forall|k: int|
        0 <= k < ms.len() - 1 ==> munmap_step(
            manager,
            #[trigger] ms[k],
            &ps[k],
            ms[k + 1],
            &ps[k + 1],
            (va0 + 4096 * k) as u64,
            if k == ms.len() - 2 {
                r
            } else {
                Ok(())
            },
        )
}

/// Unmap one page of a demand region: when it translates, unmap it and free
/// the frame it translated to.
fn munmap_page(
    manager: &PagingManager,
    mem: &mut PhysMemory,
    pmm: &mut PhysicalMemoryManager,
    virt: VirtAddr,
) -> (r: Result<(), &'static str>)
    requires
        old(mem).wf(),
        old(pmm).wf(),
    ensures
        final(mem).wf(),
        final(pmm).wf(),
        final(pmm).free_counter() <= old(pmm).free_counter() + 5,
        munmap_step(manager, old(mem)@, old(pmm), final(mem)@, final(pmm), virt.addr, r),
{
    reveal(munmap_step);
    let ghost mem0 = mem@;
    let ghost pmm0 = *pmm;
    match translate_address(manager, mem, virt) {
        Ok(phys) => {
            let res = unmap_page(manager, mem, pmm, virt);
            let ghost mem_m = mem@;
            let ghost pmm_m = *pmm;
            if res.is_err() {
                proof {
                    assert(unmap_post(manager, mem0, &pmm0, mem_m, &pmm_m, virt.addr, true, res));
                }
                return res;
            }
            let frame = phys.align_down().as_u64();
            let freed = pmm.free_frame(frame);
            proof {
                assert(unmap_post(manager, mem0, &pmm0, mem_m, &pmm_m, virt.addr, true, res));
                assert(frame == page_down(phys.0));
                assert(pmm_m.free_frame_post(pmm, frame, freed));
            }
            if freed.is_err() {
                return Err("Failed to free frame");
            }
            Ok(())
        },
        Err(_) => Ok(()),
    }
}

impl RegionTable {
    /// Unmap `size` bytes at `start` (rounded out to pages) from the demand
    /// regions: every page of the range that translates is unmapped and its
    /// frame freed, then the range is cut out of the registry.
    pub fn munmap(
        &mut self,
        manager: &PagingManager,
        mem: &mut PhysMemory,
        pmm: &mut PhysicalMemoryManager,
        start: VirtAddr,
        size: usize,
    ) -> (r: Result<(), &'static str>)
        requires
            old(self).wf(),
            old(mem).wf(),
            old(pmm).wf(),
            bounds_ok(start.addr, size),
        ensures
            final(self).wf(),
            final(mem).wf(),
            ({
                let (s, e) = region_bounds(start.addr, size);
                let valid = size != 0 && start.addr + size <= u64::MAX && e > s;
                let hit = exists|i: int| 0 <= i < MAX_REGIONS && #[trigger] slot_overlaps(old(self)@, i, s, e);
                &&& size == 0 ==> (r matches Err(x) && x@ == invalid_size_msg())
                &&& size != 0 && start.addr + size > u64::MAX ==> (r matches Err(x) && x@ == size_overflow_msg())
                &&& size != 0 && start.addr + size <= u64::MAX && e <= s ==> (r matches Err(x) && x@ == invalid_size_msg())
                &&& valid && !hit ==> (r matches Err(x) && x@ == not_in_region_msg())
                &&& !(valid && hit) ==> final(self)@ == old(self)@ && final(mem)@ == old(mem)@ && *final(pmm) == *old(pmm)
                &&& valid && hit ==> exists|ms: Seq<Seq<u64>>, ps: Seq<PhysicalMemoryManager>, rp: Result<(), &'static str>|
                    #[trigger] munmap_steps(manager, ms, ps, s, ((e - s) / 4096) as nat, rp) && ms[0] == old(mem)@
                        && ps[0] == *old(pmm) && ms.last() == final(mem)@ && ps.last() == *final(pmm) && (rp is Err
                        ==> r == rp && final(self)@ == old(self)@) && (rp is Ok && r is Ok ==> regions_cut(
                        old(self)@,
                        final(self)@,
                        s,
                        e,
                    )) && (rp is Ok && r is Err ==> (r matches Err(x) && x@ == no_split_slot_msg()))
            }),
    {
        if size == 0 {
            return Err("Invalid region size");
        }
        let (unmap_start, unmap_end) = match region_range(start, size) {
            Ok(b) => b,
            Err(e) => {
                return Err(e);
            },
        };
        if !self.any_overlap(unmap_start, unmap_end) {
            return Err("Address not in demand region");
        }
        let ghost n: nat = ((unmap_end - unmap_start) / 4096) as nat;
        let ghost mut ms: Seq<Seq<u64>> = seq![mem@];
        let ghost mut ps: Seq<PhysicalMemoryManager> = seq![*pmm];
        let ghost mut i: nat = 0;
        let mut addr = unmap_start;
        proof {
            assert(unmap_start % 4096 == 0);
            assert(unmap_end % 4096 == 0);
        }
        while addr < unmap_end
            invariant
                mem.wf(),
                pmm.wf(),
                self@ == old(self)@,
                self.wf(),
                size != 0,
                start.addr + size <= u64::MAX,
                (unmap_start, unmap_end) == region_bounds(start.addr, size),
                exists|j: int| 0 <= j < MAX_REGIONS && #[trigger] slot_overlaps(old(self)@, j, unmap_start, unmap_end),
                unmap_start % 4096 == 0,
                unmap_end % 4096 == 0,
                unmap_start < unmap_end,
                addr == unmap_start + 4096 * i,
                addr <= unmap_end,
                n == (unmap_end - unmap_start) / 4096,
                i <= n,
                munmap_steps(manager, ms, ps, unmap_start, i, Ok(())),
                ms.len() == i + 1,
                ms[0] == old(mem)@,
                ps[0] == *old(pmm),
                ms.last() == mem@,
                ps.last() == *pmm,
            decreases unmap_end - addr,
        {
            let virt = VirtAddr::new(addr);
            let ghost mem_before = mem@;
            let ghost pmm_before = *pmm;
            proof {
                lemma_page_count(unmap_start as int, unmap_end as int, addr as int, i as int);
            }
            let res = munmap_page(manager, mem, pmm, virt);
            proof {
                let ms2 = ms.push(mem@);
                let ps2 = ps.push(*pmm);
                assert forall|k: int| 0 <= k < ms2.len() - 1 implies munmap_step(
                    manager,
                    #[trigger] ms2[k],
                    &ps2[k],
                    ms2[k + 1],
                    &ps2[k + 1],
                    (unmap_start + 4096 * k) as u64,
                    if k == ms2.len() - 2 {
                        res
                    } else {
                        Ok(())
                    },
                ) by {
                    if k < ms.len() - 1 {
                        assert(ms2[k] == ms[k] && ms2[k + 1] == ms[k + 1] && ps2[k] == ps[k] && ps2[k + 1] == ps[k + 1]);
                    } else {
                        assert(ms2[k] == mem_before && ps2[k] == pmm_before);
                    }
                }
                ms = ms2;
                ps = ps2;
                if res.is_err() {
                    let (s0, e0) = region_bounds(start.addr, size);
                    assert(munmap_steps(manager, ms, ps, s0, ((e0 - s0) / 4096) as nat, res) && ms[0] == old(mem)@ && ps[0]
                        == *old(pmm) && ms.last() == mem@ && ps.last() == *pmm && (res is Err ==> res == res && self@
                        == old(self)@));
                } else if let Ok(u) = res {
                    assert(u == ());
                }
            }
            if res.is_err() {
                return res;
            }
            proof {
                i = i + 1;
            }
            addr += PAGE_SIZE as u64;
        }
        proof {
            lemma_page_count(unmap_start as int, unmap_end as int, addr as int, i as int);
        }
        let cut = self.cut_regions(unmap_start, unmap_end);
        proof {
            assert(munmap_steps(manager, ms, ps, unmap_start, n, Ok(())) && ms[0] == old(mem)@ && ps[0] == *old(pmm)
                && ms.last() == mem@ && ps.last() == *pmm);
        }
        cut
    }
}

/// Counting pages from aligned `start` to aligned `end`.
proof fn lemma_page_count(start: int, end: int, addr: int, i: int)
    requires
        start % 4096 == 0,
        end % 4096 == 0,
        addr == start + 4096 * i,
        0 <= i,
        start < end,
        addr <= end,
    ensures
        addr < end ==> addr + 4096 <= end && i + 1 <= (end - start) / 4096,
        addr == end ==> i == (end - start) / 4096,
{
    assert(addr < end ==> addr + 4096 <= end && i + 1 <= (end - start) / 4096) by (nonlinear_arith)
        requires
            start % 4096 == 0,
            end % 4096 == 0,
            addr == start + 4096 * i,
    ;
    assert(addr == end ==> i == (end - start) / 4096) by (nonlinear_arith)
        requires
            addr == start + 4096 * i,
    ;
}

/// Limit of the identity map the fault handler fills pages through (128 MiB).
pub const DEMAND_IDENTITY_LIMIT: u64 = 0x800_0000;

/// A read the owner of a file-backed region performs after a fault: `len`
/// bytes of the file named by `ctx` from `file_offset` into the frame at
/// `frame` (the rest of the frame stays zero).
#[derive(Clone, Copy, Debug)]
pub struct FileRead {
    pub ctx: u64,
    pub file_offset: u64,
    pub frame: u64,
    pub len: usize,
}

/// Slot `i` is the first slot of `s` whose region contains `addr`.
pub open spec fn first_containing(s: Seq<Option<VmRegion>>, addr: u64, i: int) -> bool {
    &&& 0 <= i < s.len()
    &&& slot_contains(s, i, addr)
    &&& forall|j: int| 0 <= j < i ==> !#[trigger] slot_contains(s, j, addr)
}

/// `mem` with the 4 KiB frame at `f` zeroed.
pub open spec fn zero_frame(mem: Seq<u64>, f: u64) -> Seq<u64> {
    Seq::new(mem.len(), |w: int| if f / 8 <= w < f / 8 + 512 { 0u64 } else { mem[w] })
}

/// The read a fault at page `page` of region `reg`, filled into frame `f`,
/// asks of a file backing `fb` (none past the end of file).
pub open spec fn file_read_for(reg: VmRegion, fb: FileBacking, page: u64, f: u64) -> Option<FileRead> {
    let off = fb.file_offset + (page - reg.start);
    if off < fb.file_size {
        Some(
            FileRead {
                ctx: fb.ctx,
                file_offset: off as u64,
                frame: f,
                len: if fb.file_size - off < 4096 { (fb.file_size - off) as usize } else { 4096 },
            },
        )
    } else {
        None
    }
}

/// Outcome of mapping the filled frame `f` at `page`: the result of the
/// mapping, and `req` on success.
pub open spec fn map_then(
    manager: &PagingManager,
    mem0: Seq<u64>,
    pmm0: &PhysicalMemoryManager,
    mem1: Seq<u64>,
    pmm1: &PhysicalMemoryManager,
    page: u64,
    f: u64,
    flags: u64,
    req: Option<FileRead>,
    r: Result<Option<FileRead>, &'static str>,
) -> bool {
    exists|r_m: Result<(), &'static str>|
        #[trigger] map_post(manager, mem0, pmm0, mem1, pmm1, page, f, flags, r_m) && match r_m {
            Ok(_) => r == Ok::<Option<FileRead>, &'static str>(req),
            Err(e) => r == Err::<Option<FileRead>, &'static str>(e),
        }
}

/// Outcome of a demand fault at `addr` in region `reg` (not a protection
/// fault): a frame is allocated, zeroed and mapped at the page with the
/// region's flags plus present; a file-backed region asks for the file's
/// bytes at the page's offset.
pub open spec fn fault_post(
    manager: &PagingManager,
    reg: VmRegion,
    mem0: Seq<u64>,
    pmm0: &PhysicalMemoryManager,
    mem1: Seq<u64>,
    pmm1: &PhysicalMemoryManager,
    addr: u64,
    r: Result<Option<FileRead>, &'static str>,
) -> bool {
    let page = page_down(addr);
    let flags = reg.flags.0 | PageTableFlags::PRESENT;
    exists|pmm_a: PhysicalMemoryManager, r_a: Result<u64, MemoryError>|
        #[trigger] pmm0.frame_alloc_post(&pmm_a, r_a) && match r_a {
            Err(_) => (r matches Err(x) && x@ == "Failed to allocate frame"@) && mem1 == mem0 && *pmm1 == pmm_a,
            Ok(f) => if !(f < DEMAND_IDENTITY_LIMIT && table_ok(mem0, f)) {
                (r matches Err(x) && x@ == "No identity mapping for frame"@) && mem1 == mem0 && *pmm1 == pmm_a
            } else {
                match reg.backing {
                    BackingKind::ZeroFill => map_then(manager, zero_frame(mem0, f), &pmm_a, mem1, pmm1, page, f, flags, None, r),
                    BackingKind::FileBacked(fb) => if page < reg.start {
                        (r matches Err(x) && x@ == "Fault outside region"@) && mem1 == zero_frame(mem0, f) && *pmm1 == pmm_a
                    } else if fb.file_offset + (page - reg.start) > u64::MAX {
                        (r matches Err(x) && x@ == "File offset overflow"@) && mem1 == zero_frame(mem0, f) && *pmm1 == pmm_a
                    } else {
                        map_then(manager, zero_frame(mem0, f), &pmm_a, mem1, pmm1, page, f, flags, file_read_for(reg, fb, page, f), r)
                    },
                }
            },
        }
}

/// A demand fault in a file-backed region that asks for a read asks for
/// the file's bytes of the faulting page: at offset `file_offset` of the
/// backing plus the page's distance from the region's start, lying within
/// the file, for a whole page or up to the end of the file, into the frame
/// that was mapped at the page.
pub proof fn lemma_fault_reads_its_page(
    manager: &PagingManager,
    reg: VmRegion,
    fb: FileBacking,
    mem0: Seq<u64>,
    pmm0: &PhysicalMemoryManager,
    mem1: Seq<u64>,
    pmm1: &PhysicalMemoryManager,
    addr: u64,
    req: FileRead,
)
    requires
        reg.backing == BackingKind::FileBacked(fb),
        fault_post(manager, reg, mem0, pmm0, mem1, pmm1, addr, Ok::<Option<FileRead>, &'static str>(Some(req))),
    ensures
        reg.start <= page_down(addr),
        req.file_offset == fb.file_offset + (page_down(addr) - reg.start),
        req.file_offset < fb.file_size,
        req.len == if fb.file_size - req.file_offset < 4096 { fb.file_size - req.file_offset } else { 4096 },
        req.ctx == fb.ctx,
        exists|pmm_a: PhysicalMemoryManager, r_m: Result<(), &'static str>|
            r_m is Ok && #[trigger] pmm0.frame_alloc_post(&pmm_a, Ok::<u64, MemoryError>(req.frame))
                && #[trigger] map_post(
                manager,
                zero_frame(mem0, req.frame),
                &pmm_a,
                mem1,
                pmm1,
                page_down(addr),
                req.frame,
                reg.flags.0 | PageTableFlags::PRESENT,
                r_m,
            ),
{
    let r = Ok::<Option<FileRead>, &'static str>(Some(req));
    let page = page_down(addr);
    let flags = reg.flags.0 | PageTableFlags::PRESENT;
    let (pmm_a, r_a) = choose|pmm_a: PhysicalMemoryManager, r_a: Result<u64, MemoryError>|
        #[trigger] pmm0.frame_alloc_post(&pmm_a, r_a) && match r_a {
            Err(_) => (r matches Err(x) && x@ == "Failed to allocate frame"@) && mem1 == mem0 && *pmm1 == pmm_a,
            Ok(f) => if !(f < DEMAND_IDENTITY_LIMIT && table_ok(mem0, f)) {
                (r matches Err(x) && x@ == "No identity mapping for frame"@) && mem1 == mem0 && *pmm1 == pmm_a
            } else {
                match reg.backing {
                    BackingKind::ZeroFill => map_then(manager, zero_frame(mem0, f), &pmm_a, mem1, pmm1, page, f, flags, None, r),
                    BackingKind::FileBacked(fb) => if page < reg.start {
                        (r matches Err(x) && x@ == "Fault outside region"@) && mem1 == zero_frame(mem0, f) && *pmm1 == pmm_a
                    } else if fb.file_offset + (page - reg.start) > u64::MAX {
                        (r matches Err(x) && x@ == "File offset overflow"@) && mem1 == zero_frame(mem0, f) && *pmm1 == pmm_a
                    } else {
                        map_then(manager, zero_frame(mem0, f), &pmm_a, mem1, pmm1, page, f, flags, file_read_for(reg, fb, page, f), r)
                    },
                }
            },
        };
    let f = r_a->Ok_0;
    assert(r_a is Ok);
    assert(page >= reg.start);
    let rq = file_read_for(reg, fb, page, f);
    let r_m = choose|r_m: Result<(), &'static str>|
        #[trigger] map_post(manager, zero_frame(mem0, f), &pmm_a, mem1, pmm1, page, f, flags, r_m) && match r_m {
            Ok(_) => r == Ok::<Option<FileRead>, &'static str>(rq),
            Err(e) => r == Err::<Option<FileRead>, &'static str>(e),
        };
    assert(r_m is Ok);
    assert(rq == Some(req));
    assert(req.frame == f);
    assert(pmm0.frame_alloc_post(&pmm_a, Ok::<u64, MemoryError>(req.frame)));
}

impl RegionTable {
    /// Handle a not-present fault at `fault_addr`: allocate, zero and map a
    /// frame for the page of the demand region holding the address; for a
    /// file-backed region, return the read that fills the frame.
    pub fn handle_demand_page_fault(
        &self,
        manager: &PagingManager,
        mem: &mut PhysMemory,
        pmm: &mut PhysicalMemoryManager,
        fault_addr: VirtAddr,
        error_code: u64,
    ) -> (r: Result<Option<FileRead>, &'static str>)
        requires
            self.wf(),
            old(mem).wf(),
            old(pmm).wf(),
        ensures
            final(mem).wf(),
            error_code & 1 != 0 ==> (r matches Err(x) && x@ == "Page was present"@) && final(mem)@ == old(mem)@
                && *final(pmm) == *old(pmm),
            error_code & 1 == 0 && (forall|i: int| 0 <= i < MAX_REGIONS ==> !#[trigger] slot_contains(self@, i, fault_addr.addr))
                ==> (r matches Err(x) && x@ == not_in_region_msg()) && final(mem)@ == old(mem)@ && *final(pmm) == *old(pmm),
            error_code & 1 == 0 ==> forall|i: int| #[trigger] first_containing(self@, fault_addr.addr, i) ==> fault_post(
                manager,
                self@[i]->Some_0,
                old(mem)@,
                old(pmm),
                final(mem)@,
                final(pmm),
                fault_addr.addr,
                r,
            ),
    {
        proof {
            lemma_wf_exact(*pmm);
        }
        if (error_code & 0x1) != 0 {
            return Err("Page was present");
        }
        let region = match self.find_region(fault_addr.as_u64()) {
            Some(reg) => reg,
            None => {
                return Err("Address not in demand region");
            },
        };
        let ghost idx = choose|i: int|
            0 <= i < MAX_REGIONS && #[trigger] slot_contains(self@, i, fault_addr.addr) && self@[i] == Some(region) && forall|j: int|
                0 <= j < i ==> !#[trigger] slot_contains(self@, j, fault_addr.addr);
        proof {
            assert forall|i: int| #[trigger] first_containing(self@, fault_addr.addr, i) implies i == idx by {
                if i < idx {
                    assert(!slot_contains(self@, i, fault_addr.addr));
                } else if i > idx {
                    assert(!slot_contains(self@, idx, fault_addr.addr));
                }
            }
        }
        let page_base = align_down(fault_addr.as_u64());
        let ghost mem0 = mem@;
        let ghost pmm0 = *pmm;
        let alloc = pmm.alloc_frame();
        let ghost pmm_a = *pmm;
        let frame = match alloc {
            Ok(f) => f,
            Err(_) => {
                return Err("Failed to allocate frame");
            },
        };
        let phys = PhysAddr::new(frame);
        if phys.as_u64() >= DEMAND_IDENTITY_LIMIT || !mem.table_in_memory(phys.as_u64()) {
            return Err("No identity mapping for frame");
        }
        mem.zero_table(phys.as_u64());
        proof {
            assert(mem@ =~= zero_frame(mem0, frame));
        }
        let mut request: Option<FileRead> = None;
        match region.backing {
            BackingKind::ZeroFill => {},
            BackingKind::FileBacked(file) => {
                let page_offset = match page_base.checked_sub(region.start) {
                    Some(o) => o,
                    None => {
                        return Err("Fault outside region");
                    },
                };
                let file_offset = match file.file_offset.checked_add(page_offset) {
                    Some(o) => o,
                    None => {
                        return Err("File offset overflow");
                    },
                };
                if file_offset < file.file_size {
                    let remaining = file.file_size - file_offset;
                    let to_read: usize = if remaining < PAGE_SIZE as u64 {
                        remaining as usize
                    } else {
                        PAGE_SIZE
                    };
                    request = Some(FileRead { ctx: file.ctx, file_offset, frame: phys.as_u64(), len: to_read });
                }
            },
        }
        let ghost mem_z = mem@;
        let ghost pmm_z = *pmm;
        let mut map_flags = region.flags;
        map_flags.set(PageTableFlags::PRESENT);
        let mapped = map_page(manager, mem, pmm, VirtAddr::new(page_base), phys, map_flags);
        proof {
            assert(map_post(manager, mem_z, &pmm_z, mem@, pmm, page_base, frame, map_flags.0, mapped));
        }
        match mapped {
            Ok(_) => Ok(request),
            Err(e) => Err(e),
        }
    }
}

/// After `mmap` places region `[s, e)` in free slot `i` of a registry none of
/// whose regions meets the range, every address of the range is found in
/// slot `i` (as `find_region` and the fault handler look it up).
pub proof fn lemma_mmap_then_find(old: Seq<Option<VmRegion>>, i: int, reg: VmRegion, s: u64, e: u64)
    requires
        first_free(old, i),
        forall|j: int| 0 <= j < old.len() ==> !#[trigger] slot_overlaps(old, j, s, e),
        reg.start == s,
        reg.end == e,
    ensures
        forall|a: u64| s <= a < e ==> #[trigger] first_containing(old.update(i, Some(reg)), a, i),
{
    let new = old.update(i, Some(reg));
    assert forall|a: u64| s <= a < e implies #[trigger] first_containing(new, a, i) by {
        assert forall|j: int| 0 <= j < i implies !#[trigger] slot_contains(new, j, a) by {
            if slot_contains(new, j, a) {
                assert(slot_overlaps(old, j, s, e));
            }
        }
    }
}

/// After `munmap` cuts `[s, e)` out of the registry, no address of the range
/// is found in any slot.
pub proof fn lemma_munmap_then_find(old: Seq<Option<VmRegion>>, new: Seq<Option<VmRegion>>, s: u64, e: u64)
    requires
        regions_cut(old, new, s, e),
    ensures
        forall|a: u64, i: int| s <= a < e && 0 <= i < new.len() ==> !#[trigger] slot_contains(new, i, a),
{
    assert forall|a: u64, i: int| s <= a < e && 0 <= i < new.len() implies !#[trigger] slot_contains(new, i, a) by {
        if slot_contains(new, i, a) {
            assert(slot_overlaps(new, i, s, e));
        }
    }
}

} // verus!
