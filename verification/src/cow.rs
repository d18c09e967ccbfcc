//! Copy-on-write: per-frame reference counts and the page-table updates that
//! share, mark and break copy-on-write pages.
use vstd::prelude::*;
use crate::paging::{FLAGS_MASK, 
    PageTableFlags, VirtAddr, PhysAddr, PhysMemory, PagingManager, PAGE_SIZE, WalkEnd, walk, canonical, top_level,
    leaf_phys, walk_error_msg, not_canonical_msg, remap_post, map_post, table_ok, translate_address, get_page_flags,
    remap_page, map_page,
};
use crate::pmm::{PhysicalMemoryManager, lemma_wf_exact};
use crate::memory_error::MemoryError;

verus! {

/// Frames whose reference counts are kept (4 GiB of 4 KiB frames).
pub const MAX_FRAMES: usize = 0x10_0000;

/// Page-table bit 9 (free for software) marks a copy-on-write page.
pub const COW_BIT: u64 = 0x200;

/// Reference counts of physical frames.
pub struct RefcountTable {
    counts: Vec<u32>,
}

impl View for RefcountTable {
    type V = Seq<u32>;

    closed spec fn view(&self) -> Seq<u32> {
        self.counts@
    }
}

/// Index of the frame holding `phys`.
pub open spec fn frame_index(phys: u64) -> int {
    phys as int / 4096
}

/// The count kept for the frame of `phys` (0 past the kept frames).
pub open spec fn count_of(refs: Seq<u32>, phys: u64) -> u32 {
    if frame_index(phys) < MAX_FRAMES {
        refs[frame_index(phys)]
    } else {
        0
    }
}

/// `refs` after incrementing the frame of `phys`.
pub open spec fn inc_spec(refs: Seq<u32>, phys: u64) -> Seq<u32> {
    if frame_index(phys) < MAX_FRAMES {
        refs.update(frame_index(phys), (refs[frame_index(phys)] + 1) as u32)
    } else {
        refs
    }
}

/// `refs` after decrementing the frame of `phys` (wrapping below zero).
pub open spec fn dec_spec(refs: Seq<u32>, phys: u64) -> Seq<u32> {
    if frame_index(phys) < MAX_FRAMES {
        refs.update(
            frame_index(phys),
            if refs[frame_index(phys)] == 0 {
                0u32
            } else {
                (refs[frame_index(phys)] - 1) as u32
            },
        )
    } else {
        refs
    }
}

/// `refs` after setting the frame of `phys` to `count`.
pub open spec fn set_spec(refs: Seq<u32>, phys: u64, count: u32) -> Seq<u32> {
    if frame_index(phys) < MAX_FRAMES {
        refs.update(frame_index(phys), count)
    } else {
        refs
    }
}

/// Incrementing the frame of `phys` does not overflow.
pub open spec fn room(refs: Seq<u32>, phys: u64) -> bool {
    frame_index(phys) < MAX_FRAMES ==> refs[frame_index(phys)] < u32::MAX
}

impl RefcountTable {
    /// The table has a count for every kept frame.
    pub open spec fn wf(&self) -> bool {
        self@.len() == MAX_FRAMES
    }
}

/// A table with every count zero.
pub fn init() -> (r: RefcountTable)
    ensures
        r.wf(),
        r@.len() == MAX_FRAMES,
        forall|i: int| 0 <= i < MAX_FRAMES ==> #[trigger] r@[i] == 0,
{
    let mut counts: Vec<u32> = Vec::new();
    let mut i: usize = 0;
    while i < MAX_FRAMES
        invariant
            i <= MAX_FRAMES,
            counts@.len() == i,
            forall|j: int| 0 <= j < i ==> #[trigger] counts@[j] == 0,
        decreases MAX_FRAMES - i,
    {
        counts.push(0);
        i += 1;
    }
    RefcountTable { counts }
}

/// Index of the frame holding `phys_addr`.
fn phys_to_frame_index(phys_addr: u64) -> (r: u64)
    ensures
        r == frame_index(phys_addr),
{
    phys_addr / (PAGE_SIZE as u64)
}

/// Reference count of the frame holding `phys_addr` (0 past the kept frames).
pub fn get_refcount(refs: &RefcountTable, phys_addr: PhysAddr) -> (r: u32)
    requires
        refs.wf(),
    ensures
        r == count_of(refs@, phys_addr.0),
{
    let index = phys_to_frame_index(phys_addr.as_u64());
    if index >= MAX_FRAMES as u64 {
        return 0;
    }
    refs.counts[index as usize]
}

/// Increment the count of the frame holding `phys_addr`; returns the new
/// count (0, with nothing changed, past the kept frames).
pub fn inc_refcount(refs: &mut RefcountTable, phys_addr: PhysAddr) -> (r: u32)
    requires
        old(refs).wf(),
        room(old(refs)@, phys_addr.0),
    ensures
        final(refs).wf(),
        final(refs)@ == inc_spec(old(refs)@, phys_addr.0),
        r == if frame_index(phys_addr.0) < MAX_FRAMES {
            count_of(old(refs)@, phys_addr.0) + 1
        } else {
            0
        },
{
    let index = phys_to_frame_index(phys_addr.as_u64());
    if index >= MAX_FRAMES as u64 {
        return 0;
    }
    let i = index as usize;
    let old_count = refs.counts[i];
    refs.counts.set(i, old_count + 1);
    old_count + 1
}

/// Decrement the count of the frame holding `phys_addr` (a zero count stays
/// zero); returns the new count, or 0 when the frame is not kept.
pub fn dec_refcount(refs: &mut RefcountTable, phys_addr: PhysAddr) -> (r: u32)
    requires
        old(refs).wf(),
    ensures
        final(refs).wf(),
        final(refs)@ == dec_spec(old(refs)@, phys_addr.0),
        r == if count_of(old(refs)@, phys_addr.0) > 0 {
            count_of(old(refs)@, phys_addr.0) - 1
        } else {
            0
        },
{
    let index = phys_to_frame_index(phys_addr.as_u64());
    if index >= MAX_FRAMES as u64 {
        return 0;
    }
    let i = index as usize;
    let old_count = refs.counts[i];
    let new_count = if old_count > 0 {
        old_count - 1
    } else {
        0
    };
    refs.counts.set(i, new_count);
    new_count
}

/// Set the count of the frame holding `phys_addr` (frames past the kept ones
/// are ignored).
pub fn set_refcount(refs: &mut RefcountTable, phys_addr: PhysAddr, count: u32)
    requires
        old(refs).wf(),
    ensures
        final(refs).wf(),
        final(refs)@ == set_spec(old(refs)@, phys_addr.0, count),
{
    let index = phys_to_frame_index(phys_addr.as_u64());
    if index >= MAX_FRAMES as u64 {
        return;
    }
    refs.counts.set(index as usize, count);
}

/// Whether the flags carry the copy-on-write bit.
pub fn is_cow_page(flags: PageTableFlags) -> (r: bool)
    ensures
        r == (flags.0 & COW_BIT != 0),
{
    (flags.raw() & COW_BIT) != 0
}

/// The flags and physical address `get_page_flags` and `translate_address`
/// report for `va`, when both succeed.
pub open spec fn leaf_of(manager: &PagingManager, mem: Seq<u64>, va: u64) -> Option<(u64, u64)> {
    let w = walk(mem, manager.root_spec(), top_level(manager.mode_spec()), va, true);
    if canonical(va, manager.mode_spec()) && w is Leaf {
        Some((w->Leaf_1 & FLAGS_MASK, leaf_phys(w->Leaf_0, w->Leaf_1, va)))
    } else {
        None
    }
}

/// The error text those lookups report when they fail.
pub open spec fn lookup_error(manager: &PagingManager, mem: Seq<u64>, va: u64) -> Seq<char> {
    if !canonical(va, manager.mode_spec()) {
        not_canonical_msg(manager.mode_spec())
    } else {
        walk_error_msg(walk(mem, manager.root_spec(), top_level(manager.mode_spec()), va, true))
    }
}

/// Flags `flags` made read-only copy-on-write.
pub open spec fn cow_flags(flags: u64) -> u64 {
    (flags & !(PageTableFlags::WRITABLE)) | COW_BIT
}

/// Flags `flags` made writable and private again.
pub open spec fn private_flags(flags: u64) -> u64 {
    (flags | PageTableFlags::WRITABLE) & !COW_BIT
}

/// Look up the flags and the physical address of `va`.
fn lookup(manager: &PagingManager, mem: &PhysMemory, va: VirtAddr) -> (r: Result<(PageTableFlags, PhysAddr), &'static str>)
    requires
        mem.wf(),
    ensures
        match leaf_of(manager, mem@, va.addr) {
            Some((f, p)) => r matches Ok((fl, ph)) && fl.0 == f && ph.0 == p,
            None => r matches Err(e) && e@ == lookup_error(manager, mem@, va.addr),
        },
{
    let flags = match get_page_flags(manager, mem, va) {
        Ok(f) => f,
        Err(e) => {
            return Err(e);
        },
    };
    let phys = match translate_address(manager, mem, va) {
        Ok(p) => p,
        Err(e) => {
            return Err(e);
        },
    };
    Ok((flags, phys))
}

/// Make the page at `virt_addr` copy-on-write: read-only with the
/// copy-on-write bit, its frame's count incremented.
pub fn mark_cow(manager: &PagingManager, mem: &mut PhysMemory, refs: &mut RefcountTable, virt_addr: VirtAddr) -> (r:
    Result<(), &'static str>)
    requires
        old(mem).wf(),
        old(refs).wf(),
        forall|f: u64, p: u64| leaf_of(manager, old(mem)@, virt_addr.addr) == Some((f, p)) ==> room(old(refs)@, p),
    ensures
        final(mem).wf(),
        final(refs).wf(),
        match leaf_of(manager, old(mem)@, virt_addr.addr) {
            None => (r matches Err(e) && e@ == lookup_error(manager, old(mem)@, virt_addr.addr)) && final(mem)@
                == old(mem)@ && final(refs)@ == old(refs)@,
            Some((f, p)) => final(refs)@ == inc_spec(old(refs)@, p) && remap_post(
                manager,
                old(mem)@,
                final(mem)@,
                virt_addr.addr,
                p,
                cow_flags(f),
                r,
            ),
        },
{
    let (current_flags, phys_addr) = match lookup(manager, mem, virt_addr) {
        Ok(x) => x,
        Err(e) => {
            return Err(e);
        },
    };
    let mut new_flags = current_flags;
    new_flags.clear(PageTableFlags::WRITABLE);
    let new_flags = PageTableFlags::from_raw(new_flags.raw() | COW_BIT);
    inc_refcount(refs, phys_addr);
    remap_page(manager, mem, virt_addr, phys_addr, new_flags)
}

/// `mem` with the 4 KiB frame at `dst` holding a copy of the frame at `src`.
pub open spec fn copy_frame(mem: Seq<u64>, src: u64, dst: u64) -> Seq<u64> {
    Seq::new(
        mem.len(),
        |w: int|
            if dst as int / 8 <= w < dst as int / 8 + 512 {
                mem[src as int / 8 + (w - dst as int / 8)]
            } else {
                mem[w]
            },
    )
}

/// Copying a frame gives the destination frame all 512 words (the whole
/// 4 KiB) of the source frame, word for word, and changes no word outside
/// the destination frame.
pub proof fn lemma_copy_frame_copies_page(mem: Seq<u64>, src: u64, dst: u64)
    requires
        table_ok(mem, src),
        table_ok(mem, dst),
    ensures
        copy_frame(mem, src, dst).len() == mem.len(),
        forall|k: int| 0 <= k < 512 ==> #[trigger] copy_frame(mem, src, dst)[dst / 8 + k] == mem[src / 8 + k],
        forall|w: int|
            0 <= w < mem.len() && (w < dst / 8 || w >= dst / 8 + 512) ==> #[trigger] copy_frame(mem, src, dst)[w]
                == mem[w],
{
    let m2 = copy_frame(mem, src, dst);
    assert forall|k: int| 0 <= k < 512 implies #[trigger] copy_frame(mem, src, dst)[dst / 8 + k] == mem[src / 8
        + k] by {
        let w = dst / 8 + k;
        assert(0 <= w < mem.len());
        assert(m2[w] == mem[src as int / 8 + (w - dst as int / 8)]);
    }
}

/// Error text for an unaligned copy.
pub open spec fn copy_unaligned_msg() -> Seq<char> {
    "Physical addresses must be page-aligned"@
}

/// Error text for a copy outside the identity-mapped memory.
pub open spec fn copy_unmapped_msg() -> Seq<char> {
    "Page not identity-mapped"@
}

/// Copy the 4 KiB frame at `src_phys` to the one at `dst_phys`.
#[verifier::spinoff_prover]
fn copy_page(mem: &mut PhysMemory, src_phys: PhysAddr, dst_phys: PhysAddr) -> (r: Result<(), &'static str>)
    requires
        old(mem).wf(),
    ensures
        final(mem).wf(),
        !(src_phys.0 % 4096 == 0 && dst_phys.0 % 4096 == 0) ==> (r matches Err(e) && e@ == copy_unaligned_msg())
            && final(mem)@ == old(mem)@,
        src_phys.0 % 4096 == 0 && dst_phys.0 % 4096 == 0 && !(table_ok(old(mem)@, src_phys.0) && table_ok(
            old(mem)@,
            dst_phys.0,
        )) ==> (r matches Err(e) && e@ == copy_unmapped_msg()) && final(mem)@ == old(mem)@,
        table_ok(old(mem)@, src_phys.0) && table_ok(old(mem)@, dst_phys.0) ==> r is Ok && final(mem)@ == copy_frame(
            old(mem)@,
            src_phys.0,
            dst_phys.0,
        ),
{
    if !src_phys.is_aligned() || !dst_phys.is_aligned() {
        return Err("Physical addresses must be page-aligned");
    }
    if !mem.table_in_memory(src_phys.as_u64()) || !mem.table_in_memory(dst_phys.as_u64()) {
        return Err("Page not identity-mapped");
    }
    let src = src_phys.as_u64();
    let dst = dst_phys.as_u64();
    let ghost m0 = mem@;
    let mut i: u64 = 0;
    while i < 4096
        invariant
            mem.wf(),
            mem@.len() == m0.len(),
            table_ok(m0, src),
            table_ok(m0, dst),
            src % 4096 == 0,
            dst % 4096 == 0,
            i % 8 == 0,
            i <= 4096,
            forall|w: int| #![trigger mem@[w]] 0 <= w < m0.len() ==> mem@[w] == if dst as int / 8 <= w < dst as int / 8 + i / 8 {
                m0[src as int / 8 + (w - dst as int / 8)]
            } else {
                m0[w]
            },
        decreases 4096 - i,
    {
        proof {
            if src != dst {
                assert(src as int / 8 + 512 <= dst as int / 8 || dst as int / 8 + 512 <= src as int / 8);
            }
        }
        let word = mem.read_u64(src + i).unwrap();
        mem.write_u64(dst + i, word);
        i += 8;
    }
    proof {
        assert(mem@ =~= copy_frame(m0, src, dst));
    }
    Ok(())
}

/// Outcome of breaking the copy-on-write sharing of `va`, whose flags are
/// `f` and whose physical address is `p`: a sole (or unknown) owner gets the
/// page back writable; otherwise the page is copied to a new frame mapped
/// writable in its place, the old frame's count dropped (and the frame freed
/// at zero) and the new frame's count set to one. `alloc_msg` is the error
/// text when no frame can be had.
pub open spec fn break_post(
    manager: &PagingManager,
    mem0: Seq<u64>,
    pmm0: &PhysicalMemoryManager,
    refs0: Seq<u32>,
    mem1: Seq<u64>,
    pmm1: &PhysicalMemoryManager,
    refs1: Seq<u32>,
    va: u64,
    f: u64,
    p: u64,
    alloc_msg: Seq<char>,
    r: Result<(), &'static str>,
) -> bool {
    if count_of(refs0, p) <= 1 {
        refs1 == dec_spec(refs0, p) && *pmm1 == *pmm0 && remap_post(manager, mem0, mem1, va, p, private_flags(f), r)
    } else {
        exists|pmm_a: PhysicalMemoryManager, r_a: Result<u64, MemoryError>|
            #[trigger] pmm0.frame_alloc_post(&pmm_a, r_a) && match r_a {
                Err(_) => (r matches Err(e) && e@ == alloc_msg) && mem1 == mem0 && refs1 == refs0 && *pmm1 == pmm_a,
                Ok(n) => if n == 0 {
                    (r matches Err(e) && e@ == alloc_msg) && mem1 == mem0 && refs1 == refs0 && *pmm1 == pmm_a
                } else if p % 4096 != 0 {
                    (r matches Err(e) && e@ == copy_unaligned_msg()) && mem1 == mem0 && refs1 == refs0 && *pmm1 == pmm_a
                } else if !(table_ok(mem0, p) && table_ok(mem0, n)) {
                    (r matches Err(e) && e@ == copy_unmapped_msg()) && mem1 == mem0 && refs1 == refs0 && *pmm1 == pmm_a
                } else {
                    exists|r_r: Result<(), &'static str>|
                        #[trigger] remap_post(manager, copy_frame(mem0, p, n), mem1, va, n, private_flags(f), r_r)
                            && match r_r {
                            Err(e) => r == Err::<(), &'static str>(e) && refs1 == refs0 && *pmm1 == pmm_a,
                            Ok(_) => r is Ok && refs1 == set_spec(dec_spec(refs0, p), n, 1) && (count_of(refs0, p) - 1
                                == 0 ==> exists|r_f: Result<(), MemoryError>| #[trigger] pmm_a.free_frame_post(pmm1, p, r_f))
                                && (count_of(refs0, p) - 1 != 0 ==> *pmm1 == pmm_a),
                        }
                },
            }
    }
}

/// Break the copy-on-write sharing of `virt_addr`, whose flags and physical
/// address are `current_flags` and `old_phys_addr`.
fn break_cow(
    manager: &PagingManager,
    mem: &mut PhysMemory,
    pmm: &mut PhysicalMemoryManager,
    refs: &mut RefcountTable,
    virt_addr: VirtAddr,
    current_flags: PageTableFlags,
    old_phys_addr: PhysAddr,
    alloc_msg: &'static str,
) -> (r: Result<(), &'static str>)
    requires
        old(mem).wf(),
        old(pmm).wf(),
        old(refs).wf(),
    ensures
        final(mem).wf(),
        final(pmm).wf(),
        final(refs).wf(),
        break_post(
            manager,
            old(mem)@,
            old(pmm),
            old(refs)@,
            final(mem)@,
            final(pmm),
            final(refs)@,
            virt_addr.addr,
            current_flags.0,
            old_phys_addr.0,
            alloc_msg@,
            r,
        ),
{
    let refcount = get_refcount(refs, old_phys_addr);
    let mut new_flags = current_flags;
    new_flags.set(PageTableFlags::WRITABLE);
    let new_flags = PageTableFlags::from_raw(new_flags.raw() & !COW_BIT);
    if refcount <= 1 {
        dec_refcount(refs, old_phys_addr);
        return remap_page(manager, mem, virt_addr, old_phys_addr, new_flags);
    }
    let ghost pmm0 = *pmm;
    let alloc = pmm.alloc_frame();
    let ghost pmm_a = *pmm;
    let new_frame: u64 = match alloc {
        Ok(a) => a,
        Err(_) => 0,
    };
    if new_frame == 0 {
        return Err(alloc_msg);
    }
    let new_phys_addr = PhysAddr::new(new_frame);
    let ghost mem0 = mem@;
    let copied = copy_page(mem, old_phys_addr, new_phys_addr);
    if copied.is_err() {
        return copied;
    }
    let ghost mem_c = mem@;
    let remapped = remap_page(manager, mem, virt_addr, new_phys_addr, new_flags);
    proof {
        assert(remap_post(manager, mem_c, mem@, virt_addr.addr, new_frame, private_flags(current_flags.0), remapped));
    }
    if remapped.is_err() {
        return remapped;
    }
    let new_refcount = dec_refcount(refs, old_phys_addr);
    if new_refcount == 0 {
        let freed = pmm.free_frame(old_phys_addr.as_u64());
        proof {
            assert(pmm_a.free_frame_post(pmm, old_phys_addr.0, freed));
        }
    }
    set_refcount(refs, new_phys_addr, 1);
    Ok(())
}

/// Handle a write fault on a copy-on-write page.
pub fn handle_cow_fault(
    manager: &PagingManager,
    mem: &mut PhysMemory,
    pmm: &mut PhysicalMemoryManager,
    refs: &mut RefcountTable,
    virt_addr: VirtAddr,
) -> (r: Result<(), &'static str>)
    requires
        old(mem).wf(),
        old(pmm).wf(),
        old(refs).wf(),
    ensures
        final(mem).wf(),
        final(pmm).wf(),
        final(refs).wf(),
        match leaf_of(manager, old(mem)@, virt_addr.addr) {
            None => (r matches Err(e) && e@ == lookup_error(manager, old(mem)@, virt_addr.addr)) && final(mem)@
                == old(mem)@ && final(refs)@ == old(refs)@ && *final(pmm) == *old(pmm),
            Some((f, p)) => if f & COW_BIT == 0 {
                (r matches Err(e) && e@ == "Not a CoW page"@) && final(mem)@ == old(mem)@ && final(refs)@ == old(refs)@
                    && *final(pmm) == *old(pmm)
            } else {
                break_post(
                    manager,
                    old(mem)@,
                    old(pmm),
                    old(refs)@,
                    final(mem)@,
                    final(pmm),
                    final(refs)@,
                    virt_addr.addr,
                    f,
                    p,
                    "Failed to allocate frame for CoW"@,
                    r,
                )
            },
        },
{
    let (current_flags, old_phys_addr) = match lookup(manager, mem, virt_addr) {
        Ok(x) => x,
        Err(e) => {
            return Err(e);
        },
    };
    if !is_cow_page(current_flags) {
        return Err("Not a CoW page");
    }
    break_cow(manager, mem, pmm, refs, virt_addr, current_flags, old_phys_addr, "Failed to allocate frame for CoW")
}

/// Break the copy-on-write sharing of a page; pages that are not
/// copy-on-write are left as they are.
pub fn unshare_cow_page(
    manager: &PagingManager,
    mem: &mut PhysMemory,
    pmm: &mut PhysicalMemoryManager,
    refs: &mut RefcountTable,
    virt_addr: VirtAddr,
) -> (r: Result<(), &'static str>)
    requires
        old(mem).wf(),
        old(pmm).wf(),
        old(refs).wf(),
    ensures
        final(mem).wf(),
        final(pmm).wf(),
        final(refs).wf(),
        match leaf_of(manager, old(mem)@, virt_addr.addr) {
            None => (r matches Err(e) && e@ == lookup_error(manager, old(mem)@, virt_addr.addr)) && final(mem)@
                == old(mem)@ && final(refs)@ == old(refs)@ && *final(pmm) == *old(pmm),
            Some((f, p)) => if f & COW_BIT == 0 {
                r is Ok && final(mem)@ == old(mem)@ && final(refs)@ == old(refs)@ && *final(pmm) == *old(pmm)
            } else {
                break_post(
                    manager,
                    old(mem)@,
                    old(pmm),
                    old(refs)@,
                    final(mem)@,
                    final(pmm),
                    final(refs)@,
                    virt_addr.addr,
                    f,
                    p,
                    "Failed to allocate frame"@,
                    r,
                )
            },
        },
{
    let (current_flags, old_phys_addr) = match lookup(manager, mem, virt_addr) {
        Ok(x) => x,
        Err(e) => {
            return Err(e);
        },
    };
    if !is_cow_page(current_flags) {
        return Ok(());
    }
    break_cow(manager, mem, pmm, refs, virt_addr, current_flags, old_phys_addr, "Failed to allocate frame")
}

/// Outcome of sharing the page at `src` with `dst` copy-on-write.
pub open spec fn share_post(
    manager: &PagingManager,
    mem0: Seq<u64>,
    pmm0: &PhysicalMemoryManager,
    refs0: Seq<u32>,
    mem1: Seq<u64>,
    pmm1: &PhysicalMemoryManager,
    refs1: Seq<u32>,
    src: u64,
    dst: u64,
    r: Result<(), &'static str>,
) -> bool {
    match leaf_of(manager, mem0, src) {
        None => (r matches Err(e) && e@ == lookup_error(manager, mem0, src)) && mem1 == mem0 && refs1 == refs0
            && *pmm1 == *pmm0,
        Some((f, p)) => exists|mem_r: Seq<u64>, r_r: Result<(), &'static str>|
            #[trigger] remap_post(manager, mem0, mem_r, src, p, cow_flags(f), r_r) && match r_r {
                Err(e) => r == Err::<(), &'static str>(e) && mem1 == mem_r && refs1 == refs0 && *pmm1 == *pmm0,
                Ok(_) => exists|r_m: Result<(), &'static str>|
                    #[trigger] map_post(manager, mem_r, pmm0, mem1, pmm1, dst, p, cow_flags(f), r_m) && match r_m {
                        Err(e) => r == Err::<(), &'static str>(e) && refs1 == refs0,
                        Ok(_) => r is Ok && refs1 == inc_spec(refs0, p),
                    },
            },
    }
}

/// Map `dst_virt` to the frame of `src_virt`, both read-only copy-on-write,
/// and count the new reference.
pub fn share_page_cow(
    manager: &PagingManager,
    mem: &mut PhysMemory,
    pmm: &mut PhysicalMemoryManager,
    refs: &mut RefcountTable,
    src_virt: VirtAddr,
    dst_virt: VirtAddr,
) -> (r: Result<(), &'static str>)
    requires
        old(mem).wf(),
        old(pmm).wf(),
        old(refs).wf(),
        forall|f: u64, p: u64| leaf_of(manager, old(mem)@, src_virt.addr) == Some((f, p)) ==> room(old(refs)@, p),
    ensures
        final(mem).wf(),
        final(pmm).wf(),
        final(pmm).counter_exact(),
        final(refs).wf(),
        share_post(
            manager,
            old(mem)@,
            old(pmm),
            old(refs)@,
            final(mem)@,
            final(pmm),
            final(refs)@,
            src_virt.addr,
            dst_virt.addr,
            r,
        ),
{
    proof {
        lemma_wf_exact(*pmm);
    }
    let (src_flags, phys_addr) = match lookup(manager, mem, src_virt) {
        Ok(x) => x,
        Err(e) => {
            return Err(e);
        },
    };
    let mut shared_flags = src_flags;
    shared_flags.clear(PageTableFlags::WRITABLE);
    let shared_flags = PageTableFlags::from_raw(shared_flags.raw() | COW_BIT);
    let ghost mem0 = mem@;
    let ghost pmm0 = *pmm;
    assert(shared_flags.0 == cow_flags(src_flags.0));
    let remapped = remap_page(manager, mem, src_virt, phys_addr, shared_flags);
    let ghost mem_r = mem@;
    assert(remap_post(manager, mem0, mem_r, src_virt.addr, phys_addr.0, cow_flags(src_flags.0), remapped));
    if remapped.is_err() {
        return remapped;
    }
    let mapped = map_page(manager, mem, pmm, dst_virt, phys_addr, shared_flags);
    assert(map_post(manager, mem_r, &pmm0, mem@, pmm, dst_virt.addr, phys_addr.0, cow_flags(src_flags.0), mapped));
    if mapped.is_err() {
        return mapped;
    }
    inc_refcount(refs, phys_addr);
    Ok(())
}

/// Outcome of `mark_cow(va)` from `mem0`, `refs0` to `mem1`, `refs1`.
#[verifier::opaque]
pub open spec fn mark_cow_step(
    manager: &PagingManager,
    mem0: Seq<u64>,
    refs0: Seq<u32>,
    mem1: Seq<u64>,
    refs1: Seq<u32>,
    va: u64,
    r: Result<(), &'static str>,
) -> bool {
    match leaf_of(manager, mem0, va) {
        None => (r matches Err(e) && e@ == lookup_error(manager, mem0, va)) && mem1 == mem0 && refs1 == refs0,
        Some((f, p)) => refs1 == inc_spec(refs0, p) && remap_post(manager, mem0, mem1, va, p, cow_flags(f), r),
    }
}

/// Successive `mark_cow` calls on the pages from `va0`, stopping at the
/// first error `r` or after `n` pages.
pub open spec fn mark_cow_steps(
    manager: &PagingManager,
    ms: Seq<Seq<u64>>,
    rs: Seq<Seq<u32>>,
    va0: u64,
    n: nat,
    r: Result<(), &'static str>,
) -> bool {
    &&& ms.len() == rs.len()
    &&& 1 <= ms.len() <= n + 1
    &&& r is Ok ==> ms.len() == n + 1
    &&& r is Err ==> ms.len() >= 2
    &&& forall|k: int|
        0 <= k < ms.len() - 1 ==> mark_cow_step(
            manager,
            #[trigger] ms[k],
            rs[k],
            ms[k + 1],
            rs[k + 1],
            (va0 + 4096 * k) as u64,
            if k == ms.len() - 2 {
                r
            } else {
                Ok(())
            },
        )
}

/// Every count has room for `n` more references.
pub open spec fn counts_below(refs: Seq<u32>, n: int) -> bool {
    forall|i: int| 0 <= i < refs.len() ==> #[trigger] refs[i] + n <= u32::MAX
}

/// Mark the pages of `size` bytes from `virt_start` copy-on-write, stopping
/// at the first error.
pub fn mark_cow_range(manager: &PagingManager, mem: &mut PhysMemory, refs: &mut RefcountTable, virt_start: VirtAddr, size: usize)
    -> (r: Result<(), &'static str>)
    requires
        old(mem).wf(),
        old(refs).wf(),
        size + 4095 <= usize::MAX,
        virt_start.addr + (size + 4095) / 4096 * 4096 <= u64::MAX,
        counts_below(old(refs)@, (size + 4095) / 4096),
    ensures
        final(mem).wf(),
        final(refs).wf(),
        exists|ms: Seq<Seq<u64>>, rs: Seq<Seq<u32>>|
            #[trigger] mark_cow_steps(manager, ms, rs, virt_start.addr, ((size + 4095) / 4096) as nat, r) && ms[0]
                == old(mem)@ && rs[0] == old(refs)@ && ms.last() == final(mem)@ && rs.last() == final(refs)@,
{
    let page_count = (size + (PAGE_SIZE - 1)) / PAGE_SIZE;
    let ghost mut ms: Seq<Seq<u64>> = seq![mem@];
    let ghost mut rs: Seq<Seq<u32>> = seq![refs@];
    let mut i: usize = 0;
    while i < page_count
        invariant
            mem.wf(),
            refs.wf(),
            page_count == (size + 4095) / 4096,
            i <= page_count,
            virt_start.addr + page_count * 4096 <= u64::MAX,
            counts_below(refs@, page_count - i),
            mark_cow_steps(manager, ms, rs, virt_start.addr, i as nat, Ok(())),
            ms.len() == i + 1,
            ms[0] == old(mem)@,
            rs[0] == old(refs)@,
            ms.last() == mem@,
            rs.last() == refs@,
        decreases page_count - i,
    {
        proof {
            assert(i * 4096 + 4096 <= page_count * 4096) by (nonlinear_arith)
                requires
                    i < page_count,
            ;
        }
        let virt = VirtAddr::new(virt_start.as_u64() + (i * PAGE_SIZE) as u64);
        assert(virt.addr == (virt_start.addr + 4096 * i) as u64);
        let ghost mem_before = mem@;
        let ghost refs_before = refs@;
        let res = mark_cow(manager, mem, refs, virt);
        proof {
            assert(mark_cow_step(manager, mem_before, refs_before, mem@, refs@, virt.addr, res)) by {
                reveal(mark_cow_step);
            }
            assert(counts_below(refs@, page_count - i - 1));
            let ms2 = ms.push(mem@);
            let rs2 = rs.push(refs@);
            assert forall|k: int| 0 <= k < ms2.len() - 1 implies mark_cow_step(
                manager,
                #[trigger] ms2[k],
                rs2[k],
                ms2[k + 1],
                rs2[k + 1],
                (virt_start.addr + 4096 * k) as u64,
                if k == ms2.len() - 2 {
                    res
                } else {
                    Ok(())
                },
            ) by {
                if k < ms.len() - 1 {
                    assert(ms2[k] == ms[k] && ms2[k + 1] == ms[k + 1] && rs2[k] == rs[k] && rs2[k + 1] == rs[k + 1]);
                } else {
                    assert(ms2[k] == mem_before && rs2[k] == refs_before);
                }
            }
            ms = ms2;
            rs = rs2;
            if res.is_err() {
                assert(mark_cow_steps(manager, ms, rs, virt_start.addr, ((size + 4095) / 4096) as nat, res) && ms[0]
                    == old(mem)@ && rs[0] == old(refs)@ && ms.last() == mem@ && rs.last() == refs@);
            } else if let Ok(u) = res {
                assert(u == ());
            }
        }
        if res.is_err() {
            return res;
        }
        i += 1;
    }
    proof {
        assert(mark_cow_steps(manager, ms, rs, virt_start.addr, ((size + 4095) / 4096) as nat, Ok(())) && ms[0]
            == old(mem)@ && rs[0] == old(refs)@ && ms.last() == mem@ && rs.last() == refs@);
    }
    Ok(())
}

/// One page of `clone_range_cow`: a page of the source that translates is
/// shared with the destination page; other pages are skipped.
#[verifier::opaque]
pub open spec fn clone_step(
    manager: &PagingManager,
    mem0: Seq<u64>,
    pmm0: &PhysicalMemoryManager,
    refs0: Seq<u32>,
    mem1: Seq<u64>,
    pmm1: &PhysicalMemoryManager,
    refs1: Seq<u32>,
    src: u64,
    dst: u64,
    r: Result<(), &'static str>,
) -> bool {
    if leaf_of(manager, mem0, src) is Some {
        share_post(manager, mem0, pmm0, refs0, mem1, pmm1, refs1, src, dst, r)
    } else {
        r is Ok && mem1 == mem0 && *pmm1 == *pmm0 && refs1 == refs0
    }
}

/// Successive pages of `clone_range_cow` from `src0` to `dst0`, stopping at
/// the first error `r` or after `n` pages.
pub open spec fn clone_steps(
    manager: &PagingManager,
    ms: Seq<Seq<u64>>,
    ps: Seq<PhysicalMemoryManager>,
    rs: Seq<Seq<u32>>,
    src0: u64,
    dst0: u64,
    n: nat,
    r: Result<(), &'static str>,
) -> bool {
    &&& ms.len() == ps.len()
    &&& ms.len() == rs.len()
    &&& 1 <= ms.len() <= n + 1
    &&& r is Ok ==> ms.len() == n + 1
    &&& r is Err ==> ms.len() >= 2
    &&& forall|k: int|
        0 <= k < ms.len() - 1 ==> clone_step(
            manager,
            #[trigger] ms[k],
            &ps[k],
            rs[k],
            ms[k + 1],
            &ps[k + 1],
            rs[k + 1],
            (src0 + 4096 * k) as u64,
            (dst0 + 4096 * k) as u64,
            if k == ms.len() - 2 {
                r
            } else {
                Ok(())
            },
        )
}

/// Share every mapped page of `size` bytes from `src_virt_start` with the
/// matching page from `dst_virt_start`, copy-on-write (as `fork` does),
/// stopping at the first error.
pub fn clone_range_cow(
    manager: &PagingManager,
    mem: &mut PhysMemory,
    pmm: &mut PhysicalMemoryManager,
    refs: &mut RefcountTable,
    src_virt_start: VirtAddr,
    dst_virt_start: VirtAddr,
    size: usize,
) -> (r: Result<(), &'static str>)
    requires
        old(mem).wf(),
        old(pmm).wf(),
        old(refs).wf(),
        size + 4095 <= usize::MAX,
        src_virt_start.addr + (size + 4095) / 4096 * 4096 <= u64::MAX,
        dst_virt_start.addr + (size + 4095) / 4096 * 4096 <= u64::MAX,
        counts_below(old(refs)@, (size + 4095) / 4096),
    ensures
        final(mem).wf(),
        final(pmm).wf(),
        final(pmm).counter_exact(),
        final(refs).wf(),
        exists|ms: Seq<Seq<u64>>, ps: Seq<PhysicalMemoryManager>, rs: Seq<Seq<u32>>|
            #[trigger] clone_steps(
                manager,
                ms,
                ps,
                rs,
                src_virt_start.addr,
                dst_virt_start.addr,
                ((size + 4095) / 4096) as nat,
                r,
            ) && ms[0] == old(mem)@ && ps[0] == *old(pmm) && rs[0] == old(refs)@ && ms.last() == final(mem)@ && ps.last()
                == *final(pmm) && rs.last() == final(refs)@,
{
    proof {
        lemma_wf_exact(*pmm);
    }
    let page_count = (size + (PAGE_SIZE - 1)) / PAGE_SIZE;
    let ghost mut ms: Seq<Seq<u64>> = seq![mem@];
    let ghost mut ps: Seq<PhysicalMemoryManager> = seq![*pmm];
    let ghost mut rs: Seq<Seq<u32>> = seq![refs@];
    let mut i: usize = 0;
    while i < page_count
        invariant
            mem.wf(),
            pmm.wf(),
            pmm.counter_exact(),
            refs.wf(),
            page_count == (size + 4095) / 4096,
            i <= page_count,
            src_virt_start.addr + page_count * 4096 <= u64::MAX,
            dst_virt_start.addr + page_count * 4096 <= u64::MAX,
            counts_below(refs@, page_count - i),
            clone_steps(manager, ms, ps, rs, src_virt_start.addr, dst_virt_start.addr, i as nat, Ok(())),
            ms.len() == i + 1,
            ms[0] == old(mem)@,
            ps[0] == *old(pmm),
            rs[0] == old(refs)@,
            ms.last() == mem@,
            ps.last() == *pmm,
            rs.last() == refs@,
        decreases page_count - i,
    {
        proof {
            assert(i * 4096 + 4096 <= page_count * 4096) by (nonlinear_arith)
                requires
                    i < page_count,
            ;
        }
        let src_virt = VirtAddr::new(src_virt_start.as_u64() + (i * PAGE_SIZE) as u64);
        let dst_virt = VirtAddr::new(dst_virt_start.as_u64() + (i * PAGE_SIZE) as u64);
        assert(src_virt.addr == (src_virt_start.addr + 4096 * i) as u64);
        assert(dst_virt.addr == (dst_virt_start.addr + 4096 * i) as u64);
        let ghost mem_before = mem@;
        let ghost pmm_before = *pmm;
        let ghost refs_before = refs@;
        let mut res: Result<(), &'static str> = Ok(());
        if translate_address(manager, mem, src_virt).is_ok() {
            res = share_page_cow(manager, mem, pmm, refs, src_virt, dst_virt);
        }
        proof {
            assert(clone_step(manager, mem_before, &pmm_before, refs_before, mem@, pmm, refs@, src_virt.addr, dst_virt.addr, res)) by {
                reveal(clone_step);
            }
            assert(counts_below(refs@, page_count - i - 1));
            let ms2 = ms.push(mem@);
            let ps2 = ps.push(*pmm);
            let rs2 = rs.push(refs@);
            assert forall|k: int| 0 <= k < ms2.len() - 1 implies clone_step(
                manager,
                #[trigger] ms2[k],
                &ps2[k],
                rs2[k],
                ms2[k + 1],
                &ps2[k + 1],
                rs2[k + 1],
                (src_virt_start.addr + 4096 * k) as u64,
                (dst_virt_start.addr + 4096 * k) as u64,
                if k == ms2.len() - 2 {
                    res
                } else {
                    Ok(())
                },
            ) by {
                if k < ms.len() - 1 {
                    assert(ms2[k] == ms[k] && ms2[k + 1] == ms[k + 1] && ps2[k] == ps[k] && ps2[k + 1] == ps[k + 1]
                        && rs2[k] == rs[k] && rs2[k + 1] == rs[k + 1]);
                } else {
                    assert(ms2[k] == mem_before && ps2[k] == pmm_before && rs2[k] == refs_before);
                }
            }
            ms = ms2;
            ps = ps2;
            rs = rs2;
            if res.is_err() {
                assert(clone_steps(
                    manager,
                    ms,
                    ps,
                    rs,
                    src_virt_start.addr,
                    dst_virt_start.addr,
                    ((size + 4095) / 4096) as nat,
                    res,
                ) && ms[0] == old(mem)@ && ps[0] == *old(pmm) && rs[0] == old(refs)@ && ms.last() == mem@ && ps.last()
                    == *pmm && rs.last() == refs@);
            } else if let Ok(u) = res {
                assert(u == ());
            }
        }
        if res.is_err() {
            return res;
        }
        i += 1;
    }
    proof {
        assert(clone_steps(
            manager,
            ms,
            ps,
            rs,
            src_virt_start.addr,
            dst_virt_start.addr,
            ((size + 4095) / 4096) as nat,
            Ok(()),
        ) && ms[0] == old(mem)@ && ps[0] == *old(pmm) && rs[0] == old(refs)@ && ms.last() == mem@ && ps.last() == *pmm
            && rs.last() == refs@);
    }
    Ok(())
}

/// Taking a reference and dropping it again leaves every count as it was.
pub proof fn lemma_inc_dec_refcount(refs: Seq<u32>, phys: u64)
    requires
        refs.len() == MAX_FRAMES,
        room(refs, phys),
    ensures
        dec_spec(inc_spec(refs, phys), phys) == refs,
{
    if frame_index(phys) < MAX_FRAMES {
        assert(dec_spec(inc_spec(refs, phys), phys) =~= refs);
    }
}

} // verus!
