//! Guard pages: unmapped pages below each kernel stack, registered so that
//! a fault on one is recognised as a stack overflow; and the allocator that
//! carves kernel stacks, each with its guard page, out of the stack area.
use vstd::prelude::*;
use crate::paging::{map_page, PageTableFlags, PagingManager, PhysAddr, PhysMemory, VirtAddr};
use crate::pmm::{lemma_exact_counter_zone_pre, lemma_wf_exact, PhysicalMemoryManager};
use crate::zones::MemoryZone;

verus! {

/// Most guard pages the registry holds.
pub const MAX_GUARD_PAGES: usize = 64;

/// Usable pages of a default kernel stack.
pub const DEFAULT_STACK_PAGES: usize = 4;

/// Start of the virtual area kernel stacks are carved from (32 MiB).
pub const KERNEL_STACK_AREA_BASE: u64 = 0x0200_0000;

/// The 4 KiB page holding `addr`.
pub open spec fn page_base(addr: u64) -> u64 {
    addr & !0xFFFu64
}

/// The registered guard pages.
pub struct GuardRegistry {
    pages: Vec<u64>,
}

impl View for GuardRegistry {
    type V = Seq<u64>;

    closed spec fn view(&self) -> Seq<u64> {
        self.pages@
    }
}

impl GuardRegistry {
    /// No guard page registered.
    pub fn new() -> (r: GuardRegistry)
        ensures
            r@ == Seq::<u64>::empty(),
    {
        GuardRegistry { pages: Vec::new() }
    }

    /// Register the page holding `virt_addr` as a guard page; `false` (and
    /// nothing registered) when 64 are registered already.
    pub fn register_guard_page(&mut self, virt_addr: u64) -> (r: bool)
        ensures
            r == (old(self)@.len() < MAX_GUARD_PAGES),
            r ==> final(self)@ == old(self)@.push(page_base(virt_addr)),
            !r ==> final(self)@ == old(self)@,
            final(self)@ == after_register(old(self)@, virt_addr),
    {
        if self.pages.len() >= MAX_GUARD_PAGES {
            return false;
        }
        self.pages.push(virt_addr & !0xFFFu64);
        true
    }

    /// Whether `addr` lies in a registered guard page.
    pub fn is_guard_page(&self, addr: u64) -> (r: bool)
        ensures
            r == self@.contains(page_base(addr)),
    {
        let base = addr & !0xFFFu64;
        let mut i: usize = 0;
        while i < self.pages.len()
            invariant
                i <= self.pages.len(),
                base == page_base(addr),
                forall|j: int| 0 <= j < i ==> self.pages@[j] != base,
            decreases self.pages.len() - i,
        {
            if self.pages[i] == base {
                assert(self@[i as int] == page_base(addr));
                return true;
            }
            i = i + 1;
        }
        false
    }
}

/// Registering a page makes every address on it a guard-page address, and
/// leaves the earlier guard pages registered.
pub proof fn lemma_register_then_guard(before: Seq<u64>, after: Seq<u64>, virt_addr: u64, addr: u64)
    requires
        after == before.push(page_base(virt_addr)),
        page_base(addr) == page_base(virt_addr) || before.contains(page_base(addr)),
    ensures
        after.contains(page_base(addr)),
{
    if page_base(addr) == page_base(virt_addr) {
        assert(after[before.len() as int] == page_base(addr));
    } else {
        let i = choose|i: int| 0 <= i < before.len() && before[i] == page_base(addr);
        assert(after[i] == page_base(addr));
    }
}

/// The registry `r` after a registration of `x`: the page of `x` is added
/// unless the registry is full.
pub open spec fn after_register(r: Seq<u64>, x: u64) -> Seq<u64> {
    if r.len() < MAX_GUARD_PAGES {
        r.push(page_base(x))
    } else {
        r
    }
}

/// Step `i` of a run of registrations: registry `rs[i + 1]` is `rs[i]`
/// after registering `xs[i]`.
pub open spec fn registration_step(rs: Seq<Seq<u64>>, xs: Seq<u64>, i: int) -> bool {
    rs[i + 1] == after_register(rs[i], xs[i])
}

/// Starting from an empty registry and registering `xs` one by one, an
/// address is on a guard page exactly when one of the registrations that
/// were accepted (made while fewer than 64 pages were registered) named an
/// address on the same page; the registry never holds more than 64 pages.
pub proof fn lemma_guard_pages_registered(rs: Seq<Seq<u64>>, xs: Seq<u64>, b: u64)
    requires
        rs.len() == xs.len() + 1,
        rs[0] == Seq::<u64>::empty(),
        forall|i: int| 0 <= i < xs.len() ==> #[trigger] registration_step(rs, xs, i),
    ensures
        rs.last().len() <= MAX_GUARD_PAGES,
        rs.last().contains(page_base(b)) <==> exists|i: int|
            0 <= i < xs.len() && #[trigger] rs[i].len() < MAX_GUARD_PAGES && page_base(xs[i]) == page_base(b),
    decreases xs.len(),
{
    let n = xs.len() as int;
    if n > 0 {
        let rs0 = rs.drop_last();
        let xs0 = xs.drop_last();
        assert forall|i: int| 0 <= i < xs0.len() implies #[trigger] registration_step(rs0, xs0, i) by {
            assert(registration_step(rs, xs, i));
            assert(rs0[i + 1] == rs[i + 1] && rs0[i] == rs[i] && xs0[i] == xs[i]);
        }
        lemma_guard_pages_registered(rs0, xs0, b);
        let m = n - 1;
        assert(registration_step(rs, xs, m));
        assert(rs0.last() == rs[m]);
        let prev = rs[m];
        let last = rs[m + 1];
        assert(rs.last() == last);
        if prev.len() < MAX_GUARD_PAGES {
            assert(last == prev.push(page_base(xs[m])));
            if last.contains(page_base(b)) {
                let k = choose|k: int| 0 <= k < last.len() && last[k] == page_base(b);
                if k == prev.len() {
                    assert(rs[m].len() < MAX_GUARD_PAGES && page_base(xs[m]) == page_base(b));
                } else {
                    assert(prev[k] == page_base(b));
                    assert(prev.contains(page_base(b)));
                    let i = choose|i: int|
                        0 <= i < xs0.len() && #[trigger] rs0[i].len() < MAX_GUARD_PAGES && page_base(xs0[i])
                            == page_base(b);
                    assert(rs0[i] == rs[i] && xs0[i] == xs[i]);
                }
            }
            if exists|i: int| 0 <= i < xs.len() && #[trigger] rs[i].len() < MAX_GUARD_PAGES && page_base(xs[i]) == page_base(b) {
                let i = choose|i: int|
                    0 <= i < xs.len() && #[trigger] rs[i].len() < MAX_GUARD_PAGES && page_base(xs[i]) == page_base(b);
                if i == m {
                    assert(last[prev.len() as int] == page_base(b));
                } else {
                    assert(rs0[i] == rs[i] && xs0[i] == xs[i]);
                    assert(prev.contains(page_base(b)));
                    let k = choose|k: int| 0 <= k < prev.len() && prev[k] == page_base(b);
                    assert(last[k] == page_base(b));
                }
            }
        } else {
            assert(last == prev);
            if last.contains(page_base(b)) {
                let i = choose|i: int|
                    0 <= i < xs0.len() && #[trigger] rs0[i].len() < MAX_GUARD_PAGES && page_base(xs0[i])
                        == page_base(b);
                assert(rs0[i] == rs[i] && xs0[i] == xs[i]);
            }
            if exists|i: int| 0 <= i < xs.len() && #[trigger] rs[i].len() < MAX_GUARD_PAGES && page_base(xs[i]) == page_base(b) {
                let i = choose|i: int|
                    0 <= i < xs.len() && #[trigger] rs[i].len() < MAX_GUARD_PAGES && page_base(xs[i]) == page_base(b);
                assert(i != m);
                assert(rs0[i] == rs[i] && xs0[i] == xs[i]);
            }
        }
    }
}

/// The virtual area kernel stacks are carved from.
pub struct KernelStackArea {
    pub next_offset: u64,
}

/// The stack top `allocate_kernel_stack` returns for a stack of `pages`
/// pages in the slot at `offset`: past the guard page and the stack pages.
pub open spec fn stack_top(offset: u64, pages: u64) -> int {
    KERNEL_STACK_AREA_BASE + offset + (pages + 1) * 4096
}

impl KernelStackArea {
    /// Nothing carved yet.
    pub fn new() -> (r: KernelStackArea)
        ensures
            r.next_offset == 0,
    {
        KernelStackArea { next_offset: 0 }
    }

    /// Carve a stack of `stack_pages` pages: take the next slot (a guard page
    /// then the stack pages), register the guard page (a full registry is
    /// ignored), and map each stack page, non-executable and writable, to a
    /// fresh frame (below 4 GiB where one is free). Returns the stack's top,
    /// or 0 when a frame or a mapping fails (the slot stays taken).
    pub fn allocate_kernel_stack(
        &mut self,
        registry: &mut GuardRegistry,
        manager: &PagingManager,
        mem: &mut PhysMemory,
        pmm: &mut PhysicalMemoryManager,
        stack_pages: u64,
    ) -> (r: u64)
        requires
            old(mem).wf(),
            old(pmm).wf(),
            stack_top(old(self).next_offset, stack_pages) <= u64::MAX,
        ensures
            final(self).next_offset == old(self).next_offset + (stack_pages + 1) * 4096,
            old(registry)@.len() < MAX_GUARD_PAGES ==> final(registry)@ == old(registry)@.push(
                page_base((KERNEL_STACK_AREA_BASE + old(self).next_offset) as u64),
            ),
            old(registry)@.len() >= MAX_GUARD_PAGES ==> final(registry)@ == old(registry)@,
            r == 0 || r == stack_top(old(self).next_offset, stack_pages),
            final(mem).wf(),
            final(pmm).wf(),
            final(pmm).counter_exact(),
    {
        proof {
            lemma_wf_exact(*pmm);
        }
        let offset = self.next_offset;
        assert((stack_pages + 1) * 4096 <= u64::MAX) by (nonlinear_arith)
            requires
                KERNEL_STACK_AREA_BASE + offset + (stack_pages + 1) * 4096 <= u64::MAX,
        ;
        let slot_size: u64 = (stack_pages + 1) * 4096;
        self.next_offset = offset + slot_size;
        let base_virt: u64 = KERNEL_STACK_AREA_BASE + offset;
        let _registered = registry.register_guard_page(base_virt);
        let mut i: u64 = 0;
        while i < stack_pages
            invariant
                i <= stack_pages,
                mem.wf(),
                pmm.wf(),
                pmm.counter_exact(),
                base_virt + (stack_pages + 1) * 4096 <= u64::MAX,
                base_virt == KERNEL_STACK_AREA_BASE + old(self).next_offset,
                self.next_offset == old(self).next_offset + (stack_pages + 1) * 4096,
                old(registry)@.len() < MAX_GUARD_PAGES ==> registry@ == old(registry)@.push(
                    page_base(base_virt),
                ),
                old(registry)@.len() >= MAX_GUARD_PAGES ==> registry@ == old(registry)@,
            decreases stack_pages - i,
        {
            assert(base_virt + 4096 + i * 4096 <= u64::MAX) by (nonlinear_arith)
                requires
                    i < stack_pages,
                    base_virt + (stack_pages + 1) * 4096 <= u64::MAX,
            ;
            let virt = VirtAddr::new(base_virt + 4096 + i * 4096);
            proof {
                lemma_exact_counter_zone_pre(pmm, MemoryZone::Dma);
                lemma_exact_counter_zone_pre(pmm, MemoryZone::Dma32);
            }
            let frame = match pmm.alloc_dma32_frame() {
                Ok(f) => f,
                Err(_) => {
                    match pmm.alloc_frame() {
                        Ok(f) => f,
                        Err(_) => {
                            return 0;
                        },
                    }
                },
            };
            let mut flags = PageTableFlags::kernel();
            flags.set(PageTableFlags::NO_EXECUTE);
            match map_page(manager, mem, pmm, virt, PhysAddr::new(frame), flags) {
                Ok(()) => {},
                Err(_) => {
                    return 0;
                },
            }
            i = i + 1;
        }
        base_virt + (stack_pages + 1) * 4096
    }
}

} // verus!
