//! The kernel heap: a 4 MiB arena of 4 KiB pages. Small requests come from
//! slab pages of their size class; large ones take a run of whole pages
//! that starts with a header recording the run's length.
use vstd::prelude::*;
use crate::bitmap::{byte_bit, frame_used, lemma_clear_bit, lemma_set_bit};
use crate::slab::{
    alloc_from_slab, class_for_need, class_index_for, class_size_of, free_head_in_page, free_to_slab,
    init_slab_page, lemma_class_capacity, lemma_index_fits, lemma_link_roundtrip, link_at, slab_alloc, slab_free, slab_need, with_link, SlabPage,
    FREE_LIST_END, PAGE_SIZE, SLAB_CLASS_COUNT,
};

verus! {

/// Size of the heap arena.
pub const HEAP_SIZE: usize = 0x40_0000;

/// Pages in the arena.
pub const HEAP_PAGE_COUNT: usize = 1024;

/// Page kinds.
pub const PAGE_KIND_FREE: u8 = 0;
pub const PAGE_KIND_SLAB: u8 = 1;
pub const PAGE_KIND_LARGE: u8 = 2;

/// Magic value ("NAFU") at the start of a large allocation's header.
pub const LARGE_MAGIC: u32 = 0x4E41_4655;

/// Size of a large allocation's header (magic, page count, reserved).
pub const LARGE_HEADER_SIZE: usize = 8;

/// Whether every object's link in a slab page with `cap` objects of
/// `size` bytes is the end marker or names an object of the page.
pub open spec fn links_ok(page: Seq<u8>, size: int, cap: int) -> bool {
    forall|i: int|
        0 <= i < cap ==> #[trigger] link_at(page, i * size) == FREE_LIST_END || link_at(page, i * size) < cap
}

/// Whether slab `s` on page `page` is consistent: a known class, the
/// capacity of that class, and a free list whose links stay in the page.
pub open spec fn slab_ok(s: SlabPage, page: Seq<u8>) -> bool {
    s.active ==> {
        &&& s.class_index < SLAB_CLASS_COUNT
        &&& s.capacity == PAGE_SIZE / class_size_of(s.class_index as int)
        &&& (s.free_head == FREE_LIST_END || s.free_head < s.capacity)
        &&& links_ok(page, class_size_of(s.class_index as int) as int, s.capacity as int)
    }
}

/// The heap: its bookkeeping (a used bit, a kind and a head page for every
/// page, and the slab of every slab page), the arena's pages and the
/// arena's address.
pub struct Heap {
    pub initialized: bool,
    pub ready: bool,
    pub page_bitmap: Vec<u8>,
    pub page_kind: Vec<u8>,
    pub page_head: Vec<u16>,
    pub slabs: Vec<SlabPage>,
    pub pages: Vec<Vec<u8>>,
    pub arena_base: u64,
}

impl Heap {
    /// Structural well-formedness: the tables have one entry per page,
    /// every page is 4 KiB, every slab is consistent with its page, a page
    /// not marked used is free (free kind, no head, no slab), and the arena
    /// lies at a nonzero address with room to spare below the top of the
    /// address space.
    pub open spec fn wf(&self) -> bool {
        &&& self.page_bitmap.len() == HEAP_PAGE_COUNT / 8
        &&& self.page_kind.len() == HEAP_PAGE_COUNT
        &&& self.page_head.len() == HEAP_PAGE_COUNT
        &&& self.slabs.len() == HEAP_PAGE_COUNT
        &&& self.pages.len() == HEAP_PAGE_COUNT
        &&& forall|p: int| 0 <= p < HEAP_PAGE_COUNT ==> #[trigger] self.pages@[p].len() == PAGE_SIZE
        &&& forall|p: int| 0 <= p < HEAP_PAGE_COUNT ==> slab_ok(#[trigger] self.slabs@[p], self.pages@[p]@)
        &&& forall|p: int| 0 <= p < HEAP_PAGE_COUNT && !#[trigger] self.used(p) ==> self.page_kind@[p] == PAGE_KIND_FREE
            && self.page_head@[p] == FREE_HEAD && self.slabs@[p] == empty_slab()
        &&& 0 < self.arena_base
        &&& self.arena_base + HEAP_SIZE <= u64::MAX
    }

    /// Page `p` is marked used.
    pub open spec fn used(&self, p: int) -> bool {
        frame_used(self.page_bitmap@, p)
    }

    /// The address of page `p`.
    pub open spec fn page_addr(&self, p: int) -> int {
        self.arena_base + p * PAGE_SIZE
    }
}

/// The slab entry of a page that holds no slab.
pub open spec fn empty_slab() -> SlabPage {
    SlabPage { active: false, class_index: 0, free_head: FREE_LIST_END, in_use: 0, capacity: 0 }
}

/// Head entry of a page that belongs to no allocation.
pub const FREE_HEAD: u16 = 0xFFFF;

impl Heap {
    /// A heap over the arena at `arena_base`, not yet initialised: every
    /// page free and zero.
    pub fn new(arena_base: u64) -> (r: Heap)
        requires
            0 < arena_base,
            arena_base + HEAP_SIZE <= u64::MAX,
        ensures
            r.wf(),
            !r.initialized && !r.ready,
            r.arena_base == arena_base,
            forall|p: int| 0 <= p < HEAP_PAGE_COUNT ==> !r.used(p),
    {
        let mut page_bitmap: Vec<u8> = Vec::new();
        while page_bitmap.len() < HEAP_PAGE_COUNT / 8
            invariant
                page_bitmap.len() <= HEAP_PAGE_COUNT / 8,
                forall|i: int| 0 <= i < page_bitmap.len() ==> page_bitmap@[i] == 0u8,
            decreases HEAP_PAGE_COUNT / 8 - page_bitmap.len(),
        {
            page_bitmap.push(0u8);
        }
        let mut page_kind: Vec<u8> = Vec::new();
        let mut page_head: Vec<u16> = Vec::new();
        let mut slabs: Vec<SlabPage> = Vec::new();
        let mut pages: Vec<Vec<u8>> = Vec::new();
        while pages.len() < HEAP_PAGE_COUNT
            invariant
                pages.len() <= HEAP_PAGE_COUNT,
                page_kind.len() == pages.len(),
                page_head.len() == pages.len(),
                slabs.len() == pages.len(),
                forall|p: int| 0 <= p < pages.len() ==> #[trigger] pages@[p].len() == PAGE_SIZE,
                forall|p: int| 0 <= p < pages.len() ==> #[trigger] slabs@[p] == empty_slab(),
                forall|p: int| 0 <= p < pages.len() ==> #[trigger] page_kind@[p] == PAGE_KIND_FREE,
                forall|p: int| 0 <= p < pages.len() ==> #[trigger] page_head@[p] == FREE_HEAD,
            decreases HEAP_PAGE_COUNT - pages.len(),
        {
            let mut page: Vec<u8> = Vec::new();
            while page.len() < PAGE_SIZE
                invariant
                    page.len() <= PAGE_SIZE,
                decreases PAGE_SIZE - page.len(),
            {
                page.push(0u8);
            }
            pages.push(page);
            page_kind.push(PAGE_KIND_FREE);
            page_head.push(FREE_HEAD);
            slabs.push(SlabPage::empty());
        }
        let r = Heap {
            initialized: false,
            ready: false,
            page_bitmap,
            page_kind,
            page_head,
            slabs,
            pages,
            arena_base,
        };
        assert forall|p: int| 0 <= p < HEAP_PAGE_COUNT implies !r.used(p) by {
            assert(r.page_bitmap@[p / 8] == 0u8);
            assert(0u8 & (1u8 << ((p % 8) as u8)) == 0) by (bit_vector);
        }
        r
    }

    /// The address of page `page`.
    pub fn page_address(&self, page: usize) -> (r: u64)
        requires
            self.wf(),
            page < HEAP_PAGE_COUNT,
        ensures
            r == self.page_addr(page as int),
    {
        assert((page as u64) * (PAGE_SIZE as u64) < HEAP_SIZE) by (nonlinear_arith)
            requires
                page < HEAP_PAGE_COUNT,
        ;
        self.arena_base + (page as u64) * (PAGE_SIZE as u64)
    }

    /// Whether page `page` is marked used.
    fn is_page_used(&self, page: usize) -> (r: bool)
        requires
            self.wf(),
            page < HEAP_PAGE_COUNT,
        ensures
            r == self.used(page as int),
    {
        let byte = self.page_bitmap[page / 8];
        let bit = (page % 8) as u8;
        (byte & (1u8 << bit)) != 0
    }

    /// Mark page `page` used or free; a page is only marked free once its
    /// bookkeeping says free.
    fn set_page_used(&mut self, page: usize, used: bool)
        requires
            old(self).wf(),
            page < HEAP_PAGE_COUNT,
            !used ==> old(self).page_kind@[page as int] == PAGE_KIND_FREE && old(self).page_head@[page as int]
                == FREE_HEAD && old(self).slabs@[page as int] == empty_slab(),
        ensures
            final(self).wf(),
            forall|p: int| 0 <= p < HEAP_PAGE_COUNT ==> #[trigger] final(self).used(p) == if p == page {
                used
            } else {
                old(self).used(p)
            },
            final(self).page_kind@ == old(self).page_kind@,
            final(self).page_head@ == old(self).page_head@,
            final(self).slabs@ == old(self).slabs@,
            final(self).pages@ == old(self).pages@,
            final(self).arena_base == old(self).arena_base,
            final(self).ready == old(self).ready,
            final(self).initialized == old(self).initialized,
    {
        let idx = page / 8;
        let bit = (page % 8) as u8;
        let b = self.page_bitmap[idx];
        let nb = if used {
            b | (1u8 << bit)
        } else {
            b & !(1u8 << bit)
        };
        self.page_bitmap.set(idx, nb);
        proof {
            assert forall|p: int| 0 <= p < HEAP_PAGE_COUNT implies #[trigger] self.used(p) == if p == page {
                used
            } else {
                old(self).used(p)
            } by {
                if p / 8 == idx {
                    if used {
                        lemma_set_bit(b, bit, (p % 8) as u8);
                    } else {
                        lemma_clear_bit(b, bit, (p % 8) as u8);
                    }
                }
            }
        }
    }
}

/// Whether pages `start .. start + count` are all free in `h`.
pub open spec fn run_free(h: &Heap, start: int, count: int) -> bool {
    &&& 0 <= start
    &&& start + count <= HEAP_PAGE_COUNT
    &&& forall|p: int| start <= p < start + count ==> !#[trigger] h.used(p)
}

/// `s` is the first page of the first run of `count` free pages in `h`.
pub open spec fn first_run(h: &Heap, s: int, count: int) -> bool {
    &&& run_free(h, s, count)
    &&& forall|s2: int| 0 <= s2 < s ==> !#[trigger] run_free(h, s2, count)
}

/// `b` holds the same page contents as `a`.
pub open spec fn same_pages(a: &Heap, b: &Heap) -> bool {
    &&& b.pages.len() == a.pages.len()
    &&& forall|q: int| 0 <= q < a.pages.len() ==> #[trigger] b.pages@[q]@ == a.pages@[q]@
}

/// `b` is `a` with nothing changed.
pub open spec fn unchanged(a: &Heap, b: &Heap) -> bool {
    &&& b.page_bitmap@ == a.page_bitmap@
    &&& b.page_kind@ == a.page_kind@
    &&& b.page_head@ == a.page_head@
    &&& b.slabs@ == a.slabs@
    &&& same_pages(a, b)
    &&& b.arena_base == a.arena_base
    &&& b.ready == a.ready
    &&& b.initialized == a.initialized
}

/// `b` is `a` with pages `start .. start + count` (those inside the arena)
/// returned to the free state: unused, free kind, no head, no slab; page
/// contents and everything else unchanged.
pub open spec fn released(a: &Heap, b: &Heap, start: int, count: int) -> bool {
    &&& b.arena_base == a.arena_base
    &&& b.ready == a.ready
    &&& b.initialized == a.initialized
    &&& same_pages(a, b)
    &&& b.page_kind.len() == HEAP_PAGE_COUNT
    &&& b.page_head.len() == HEAP_PAGE_COUNT
    &&& b.slabs.len() == HEAP_PAGE_COUNT
    &&& forall|p: int| 0 <= p < HEAP_PAGE_COUNT ==> #[trigger] b.used(p) == if start <= p < start + count {
        false
    } else {
        a.used(p)
    }
    &&& forall|p: int| 0 <= p < HEAP_PAGE_COUNT ==> #[trigger] b.page_kind@[p] == if start <= p < start + count {
        PAGE_KIND_FREE
    } else {
        a.page_kind@[p]
    }
    &&& forall|p: int| 0 <= p < HEAP_PAGE_COUNT ==> #[trigger] b.page_head@[p] == if start <= p < start + count {
        FREE_HEAD
    } else {
        a.page_head@[p]
    }
    &&& forall|p: int| 0 <= p < HEAP_PAGE_COUNT ==> #[trigger] b.slabs@[p] == if start <= p < start + count {
        empty_slab()
    } else {
        a.slabs@[p]
    }
}

impl Heap {
    /// Take the first run of `count` free pages (first fit), marking them
    /// used; `None` (nothing changes) for a count of 0 or when no such run
    /// exists.
    pub fn alloc_contiguous_pages(&mut self, count: usize) -> (r: Option<usize>)
        requires
            old(self).wf(),
        ensures
            final(self).wf(),
            final(self).page_kind@ == old(self).page_kind@,
            final(self).page_head@ == old(self).page_head@,
            final(self).slabs@ == old(self).slabs@,
            final(self).pages@ == old(self).pages@,
            final(self).arena_base == old(self).arena_base,
            final(self).ready == old(self).ready,
            final(self).initialized == old(self).initialized,
            r is None ==> final(self).page_bitmap@ == old(self).page_bitmap@,
            r is None && 0 < count ==> forall|s: int| !run_free(old(self), s, count as int),
            r matches Some(s) ==> {
                &&& 0 < count
                &&& first_run(old(self), s as int, count as int)
                &&& forall|p: int| 0 <= p < HEAP_PAGE_COUNT ==> #[trigger] final(self).used(p) == if s <= p < s
                    + count {
                    true
                } else {
                    old(self).used(p)
                }
            },
    {
        if count == 0 || count > HEAP_PAGE_COUNT {
            return None;
        }
        let mut run_start: usize = 0;
        let mut run_len: usize = 0;
        let mut page: usize = 0;
        while page < HEAP_PAGE_COUNT
            invariant
                self == old(self),
                self.wf(),
                0 < count <= HEAP_PAGE_COUNT,
                page <= HEAP_PAGE_COUNT,
                run_len < count,
                run_start + run_len == page,
                forall|p: int| run_start <= p < page ==> !#[trigger] self.used(p),
                run_start == 0 || self.used(run_start - 1),
                forall|s2: int| 0 <= s2 && s2 + count <= page ==> !#[trigger] run_free(self, s2, count as int),
            decreases HEAP_PAGE_COUNT - page,
        {
            if !self.is_page_used(page) {
                if run_len == 0 {
                    run_start = page;
                }
                run_len = run_len + 1;
                if run_len == count {
                    let ghost before = *self;
                    let mut i: usize = 0;
                    while i < count
                        invariant
                            self.wf(),
                            i <= count,
                            run_start + count <= HEAP_PAGE_COUNT,
                            self.page_kind@ == before.page_kind@,
                            self.page_head@ == before.page_head@,
                            self.slabs@ == before.slabs@,
                            self.pages@ == before.pages@,
                            self.arena_base == before.arena_base,
                            self.ready == before.ready,
                            self.initialized == before.initialized,
                            forall|p: int| 0 <= p < HEAP_PAGE_COUNT ==> #[trigger] self.used(p) == if run_start <= p
                                < run_start + i {
                                true
                            } else {
                                before.used(p)
                            },
                        decreases count - i,
                    {
                        self.set_page_used(run_start + i, true);
                        i = i + 1;
                    }
                    proof {
                        assert forall|s2: int| 0 <= s2 < run_start implies !#[trigger] run_free(
                            old(self),
                            s2,
                            count as int,
                        ) by {
                            assert(s2 + count <= page);
                        }
                    }
                    return Some(run_start);
                }
            } else {
                run_len = 0;
                run_start = page + 1;
            }
            proof {
                assert forall|s2: int| 0 <= s2 && s2 + count <= page + 1 implies !#[trigger] run_free(
                    self,
                    s2,
                    count as int,
                ) by {
                    if s2 + count == page + 1 {
                        if self.used(page as int) {
                            assert(s2 <= page < s2 + count);
                        } else {
                            assert(s2 < run_start);
                            assert(self.used(run_start - 1));
                            assert(s2 <= run_start - 1 < s2 + count);
                        }
                    }
                }
            }
            page = page + 1;
        }
        proof {
            assert forall|s: int| !run_free(old(self), s, count as int) by {
                if 0 <= s && s + count <= HEAP_PAGE_COUNT {
                    assert(!run_free(self, s, count as int));
                }
            }
        }
        None
    }

    /// Return pages `start .. start + count` (those inside the arena) to
    /// the free state.
    pub fn free_contiguous_pages(&mut self, start: usize, count: usize)
        requires
            old(self).wf(),
        ensures
            final(self).wf(),
            released(old(self), final(self), start as int, count as int),
    {
        let limit: usize = if start >= HEAP_PAGE_COUNT {
            0
        } else if count < HEAP_PAGE_COUNT - start {
            count
        } else {
            HEAP_PAGE_COUNT - start
        };
        let mut i: usize = 0;
        while i < limit
            invariant
                self.wf(),
                i <= limit,
                limit == 0 || start + limit <= HEAP_PAGE_COUNT,
                limit <= count,
                start < HEAP_PAGE_COUNT ==> (limit == count || start + limit == HEAP_PAGE_COUNT),
                start >= HEAP_PAGE_COUNT ==> limit == 0,
                released(old(self), self, start as int, i as int),
            decreases limit - i,
        {
            let page = start + i;
            let ghost prev = *self;
            self.page_kind.set(page, PAGE_KIND_FREE);
            self.page_head.set(page, FREE_HEAD);
            self.slabs.set(page, SlabPage::empty());
            assert(self.page_bitmap@ == prev.page_bitmap@);
            assert(forall|p: int| 0 <= p < HEAP_PAGE_COUNT ==> #[trigger] self.used(p) == prev.used(p));
            assert forall|p: int| 0 <= p < HEAP_PAGE_COUNT implies slab_ok(#[trigger] self.slabs@[p], self.pages@[p]@) by {
                if p != page {
                    assert(self.slabs@[p] == prev.slabs@[p]);
                }
            }
            self.set_page_used(page, false);
            i = i + 1;
        }
    }
}

/// Page `p` of `h` is a slab page of class `c` with a free object.
pub open spec fn candidate(h: &Heap, p: int, c: int) -> bool {
    &&& h.page_kind@[p] == PAGE_KIND_SLAB
    &&& h.slabs@[p].active
    &&& h.slabs@[p].class_index == c
    &&& h.slabs@[p].free_head != FREE_LIST_END
}

/// Page `p` is the first candidate page of class `c` in `h`.
pub open spec fn first_candidate(h: &Heap, p: int, c: int) -> bool {
    &&& 0 <= p < HEAP_PAGE_COUNT
    &&& candidate(h, p, c)
    &&& forall|q: int| 0 <= q < p ==> !#[trigger] candidate(h, q, c)
}

/// `b` is `a` after object `r` was taken from the slab on page `p`.
pub open spec fn took_from_slab(a: &Heap, b: &Heap, p: int, r: u64) -> bool {
    let (addr, slab) = slab_alloc(a.pages@[p]@, a.page_addr(p) as u64, a.slabs@[p]);
    &&& b.arena_base == a.arena_base
    &&& r == addr
    &&& b.slabs@ == a.slabs@.update(p, slab)
    &&& b.page_bitmap@ == a.page_bitmap@
    &&& b.page_kind@ == a.page_kind@
    &&& b.page_head@ == a.page_head@
    &&& same_pages(a, b)
}

/// `b` is `a` after free page `s` became a slab page of class `c` whose
/// first object `r` was taken: `s` used, of slab kind, its own head, its
/// objects chained in order with object 0 taken.
pub open spec fn fresh_slab(a: &Heap, b: &Heap, s: int, c: int, r: u64) -> bool {
    let size = class_size_of(c);
    let cap = PAGE_SIZE / size;
    &&& b.arena_base == a.arena_base
    &&& r == a.page_addr(s)
    &&& forall|q: int| 0 <= q < HEAP_PAGE_COUNT ==> #[trigger] b.used(q) == (q == s || a.used(q))
    &&& b.page_kind@ == a.page_kind@.update(s, PAGE_KIND_SLAB)
    &&& b.page_head@ == a.page_head@.update(s, s as u16)
    &&& b.slabs@ == a.slabs@.update(
        s,
        SlabPage {
            active: true,
            class_index: c as u8,
            free_head: if cap > 1 { 1 } else { FREE_LIST_END },
            in_use: 1,
            capacity: cap as u16,
        },
    )
    &&& b.pages.len() == HEAP_PAGE_COUNT
    &&& forall|q: int| 0 <= q < HEAP_PAGE_COUNT && q != s ==> #[trigger] b.pages@[q]@ == a.pages@[q]@
    &&& forall|i: int|
        0 <= i < cap ==> #[trigger] link_at(b.pages@[s]@, i * size) == if i + 1 < cap {
            (i + 1) as u16
        } else {
            FREE_LIST_END
        }
}

/// What a slab allocation of `size` bytes at alignment `align` does to
/// `a`, giving `b` and `r`: nothing (and 0) when no class fits; else an
/// object of the first slab page of the class with a free object; else,
/// when there is none, the first object of a fresh slab page at the first
/// free page; else nothing (and 0).
pub open spec fn small_outcome(a: &Heap, b: &Heap, size: usize, align: usize, r: u64) -> bool {
    match class_for_need(slab_need(size, align)) {
        None => r == 0 && unchanged(a, b),
        Some(c) => {
            &&& forall|p: int| first_candidate(a, p, c as int) ==> took_from_slab(a, b, p, r)
            &&& no_candidate(a, c as int) ==> {
                &&& forall|s: int| first_run(a, s, 1) ==> fresh_slab(a, b, s, c as int, r)
                &&& (forall|s: int| !run_free(a, s, 1)) ==> r == 0 && unchanged(a, b)
            }
        },
    }
}

/// A slab allocation of `size` bytes at alignment `align` fails on `h`:
/// no class fits, or no slab page of the class has a free object and no
/// page is free.
pub open spec fn small_fails(h: &Heap, size: usize, align: usize) -> bool {
    let cls = class_for_need(slab_need(size, align));
    ||| cls is None
    ||| no_candidate(h, cls->0 as int) && (forall|s: int| !run_free(h, s, 1))
}

/// No page of `h` is a candidate page of class `c`.
pub open spec fn no_candidate(h: &Heap, c: int) -> bool {
    forall|p: int| 0 <= p < HEAP_PAGE_COUNT ==> !#[trigger] candidate(h, p, c)
}

impl Heap {
    /// Allocate `size` bytes at alignment `align` from the slab classes:
    /// from the first slab page of the matching class with a free object,
    /// else from a fresh slab page taken at the first free page; 0 (nothing
    /// changes) when no class fits or no page is free.
    fn alloc_small(&mut self, size: usize, align: usize) -> (r: u64)
        requires
            old(self).wf(),
        ensures
            final(self).wf(),
            final(self).arena_base == old(self).arena_base,
            final(self).ready == old(self).ready,
            final(self).initialized == old(self).initialized,
            small_outcome(old(self), final(self), size, align, r),
            (r == 0) == small_fails(old(self), size, align),
            r == 0 ==> unchanged(old(self), final(self)),
    {
        let class_index = match class_index_for(size, align) {
            Some(idx) => idx,
            None => return 0,
        };
        let mut page: usize = 0;
        while page < HEAP_PAGE_COUNT
            invariant
                self == old(self),
                self.wf(),
                class_index < SLAB_CLASS_COUNT,
                class_for_need(slab_need(size, align)) == Some(class_index),
                page <= HEAP_PAGE_COUNT,
                forall|q: int| 0 <= q < page ==> !#[trigger] candidate(self, q, class_index as int),
            decreases HEAP_PAGE_COUNT - page,
        {
            if self.page_kind[page] == PAGE_KIND_SLAB {
                let mut slab = self.slabs[page];
                if slab.active && slab.class_index as usize == class_index && slab.has_free_objects() {
                    let addr = self.page_address(page);
                    proof {
                        assert(self.used(page as int));
                        assert(slab_ok(self.slabs@[page as int], self.pages@[page as int]@));
                        lemma_index_fits(slab.free_head as int, class_index as int);
                    }
                    let ptr = alloc_from_slab(&self.pages[page], addr, &mut slab);
                    self.slabs.set(page, slab);
                    proof {
                        let size_c = class_size_of(class_index as int) as int;
                        let off = old(self).slabs@[page as int].free_head * size_c;
                        assert(links_ok(old(self).pages@[page as int]@, size_c, slab.capacity as int));
                        assert(link_at(
                            old(self).pages@[page as int]@,
                            old(self).slabs@[page as int].free_head * size_c,
                        ) == FREE_LIST_END || link_at(
                            old(self).pages@[page as int]@,
                            old(self).slabs@[page as int].free_head * size_c,
                        ) < slab.capacity);
                        assert forall|p: int| 0 <= p < HEAP_PAGE_COUNT implies slab_ok(
                            #[trigger] self.slabs@[p],
                            self.pages@[p]@,
                        ) by {
                            if p != page {
                                assert(self.slabs@[p] == old(self).slabs@[p]);
                            }
                        }
                        assert(self.page_bitmap@ == old(self).page_bitmap@);
                        assert forall|p: int| 0 <= p < HEAP_PAGE_COUNT && !#[trigger] self.used(p) implies self.page_kind@[p]
                            == PAGE_KIND_FREE && self.page_head@[p] == FREE_HEAD && self.slabs@[p] == empty_slab() by {
                            assert(old(self).used(p) == self.used(p));
                            assert(p != page);
                        }
                    }
                    if ptr != 0 {
                        proof {
                            assert(candidate(old(self), page as int, class_index as int));
                            assert forall|p: int| first_candidate(old(self), p, class_index as int) implies p
                                == page by {
                                if p < page {
                                    assert(!candidate(self, p, class_index as int));
                                }
                            }
                            assert(!no_candidate(old(self), class_index as int));
                            assert(!small_fails(old(self), size, align));
                        }
                        return ptr;
                    }
                }
            }
            page = page + 1;
        }
        let new_page = match self.alloc_contiguous_pages(1) {
            Some(p) => p,
            None => {
                proof {
                    assert(self.page_bitmap@ == old(self).page_bitmap@);
                }
                return 0;
            },
        };
        let ghost mid = *self;
        let addr = self.page_address(new_page);
        self.page_kind.set(new_page, PAGE_KIND_SLAB);
        self.page_head.set(new_page, new_page as u16);
        let mut slab = self.slabs[new_page];
        init_slab_page(&mut self.pages[new_page], class_index, &mut slab);
        proof {
            lemma_class_capacity(class_index as int);
            lemma_index_fits(0, class_index as int);
        }
        let ptr = alloc_from_slab(&self.pages[new_page], addr, &mut slab);
        self.slabs.set(new_page, slab);
        proof {
            assert(mid.used(new_page as int));
            assert(self.page_bitmap@ == mid.page_bitmap@);
            let size_c = class_size_of(class_index as int) as int;
            let cap = PAGE_SIZE / class_size_of(class_index as int);
            assert(link_at(self.pages@[new_page as int]@, 0 * size_c) == if 0 + 1 < cap {
                (0 + 1) as u16
            } else {
                FREE_LIST_END
            });
            assert forall|i: int| 0 <= i < cap implies #[trigger] link_at(self.pages@[new_page as int]@, i * size_c)
                == FREE_LIST_END || link_at(self.pages@[new_page as int]@, i * size_c) < cap by {}
            assert forall|p: int| 0 <= p < HEAP_PAGE_COUNT implies slab_ok(
                #[trigger] self.slabs@[p],
                self.pages@[p]@,
            ) by {
                if p != new_page {
                    assert(self.slabs@[p] == mid.slabs@[p]);
                    assert(self.pages@[p] == mid.pages@[p]);
                }
            }
            assert forall|p: int| 0 <= p < HEAP_PAGE_COUNT && !#[trigger] self.used(p) implies self.page_kind@[p]
                == PAGE_KIND_FREE && self.page_head@[p] == FREE_HEAD && self.slabs@[p] == empty_slab() by {
                assert(p != new_page);
                assert(mid.used(p) == self.used(p));
            }
            assert forall|q: int| 0 <= q < HEAP_PAGE_COUNT implies #[trigger] self.used(q) == (q == new_page
                || old(self).used(q)) by {
                assert(mid.used(q) == self.used(q));
            }
        }
        ptr
    }
}

/// Pages taken by a large allocation of `size` bytes at alignment `align`:
/// the bytes of the request, the alignment slack and the header
/// (saturating), rounded up to whole pages (wrapping, so a saturated
/// request gives 0).
pub open spec fn large_pages(size: usize, align: usize) -> usize {
    size.saturating_add(align).saturating_add(LARGE_HEADER_SIZE).wrapping_add((PAGE_SIZE - 1) as usize) / PAGE_SIZE
}

/// The alignment a request asks for, 0 read as 1.
pub open spec fn user_align(align: usize) -> u64 {
    if align == 0 {
        1
    } else {
        align as u64
    }
}

/// `value` rounded up to a multiple of `align` (a power of two), wrapping.
pub open spec fn align_up(value: u64, align: u64) -> u64 {
    value.wrapping_add((align - 1) as u64) & !((align - 1) as u64)
}

/// `page` with a large-allocation header for `n` pages at its start: the
/// magic in little-endian order, `n` in little-endian order, two zero bytes.
pub open spec fn with_large_header(page: Seq<u8>, n: int) -> Seq<u8> {
    page.update(0, 0x55u8).update(1, 0x46u8).update(2, 0x41u8).update(3, 0x4Eu8).update(4, (n % 256) as u8).update(
        5,
        (n / 256) as u8,
    ).update(6, 0u8).update(7, 0u8)
}

/// The magic of the header at the start of `page` (little-endian).
pub open spec fn header_magic(page: Seq<u8>) -> int {
    page[0] + page[1] * 256 + page[2] * 65536 + page[3] * 16777216
}

/// The page count of the header at the start of `page` (little-endian).
pub open spec fn header_pages(page: Seq<u8>) -> int {
    page[4] + page[5] * 256
}

/// `b` is `a` after the run of `n` pages at `s` became a large allocation
/// answered with `r`: the run used, of large kind, headed by `s`, its first
/// page starting with the header, and `r` the first address past the
/// header aligned to the request's alignment.
pub open spec fn large_run(a: &Heap, b: &Heap, s: int, n: int, align: usize, r: u64) -> bool {
    &&& b.arena_base == a.arena_base
    &&& r == align_up((a.page_addr(s) + LARGE_HEADER_SIZE) as u64, user_align(align))
    &&& forall|q: int| 0 <= q < HEAP_PAGE_COUNT ==> #[trigger] b.used(q) == ((s <= q < s + n) || a.used(q))
    &&& b.page_kind.len() == HEAP_PAGE_COUNT
    &&& b.page_head.len() == HEAP_PAGE_COUNT
    &&& forall|q: int| 0 <= q < HEAP_PAGE_COUNT ==> #[trigger] b.page_kind@[q] == if s <= q < s + n {
        PAGE_KIND_LARGE
    } else {
        a.page_kind@[q]
    }
    &&& forall|q: int| 0 <= q < HEAP_PAGE_COUNT ==> #[trigger] b.page_head@[q] == if s <= q < s + n {
        s as u16
    } else {
        a.page_head@[q]
    }
    &&& b.slabs@ == a.slabs@
    &&& b.pages.len() == HEAP_PAGE_COUNT
    &&& forall|q: int| 0 <= q < HEAP_PAGE_COUNT && q != s ==> #[trigger] b.pages@[q]@ == a.pages@[q]@
    &&& b.pages@[s]@ == with_large_header(a.pages@[s]@, n)
}

/// What a large allocation of `size` bytes at alignment `align` does to
/// `a`, giving `b` and `r`: with a page count from 1 to 65535 and a first
/// run of that many free pages, that run becomes the allocation; else
/// nothing changes and `r` is 0.
pub open spec fn large_outcome(a: &Heap, b: &Heap, size: usize, align: usize, r: u64) -> bool {
    let n = large_pages(size, align) as int;
    &&& (n == 0 || n > 0xFFFF || (forall|s: int| !run_free(a, s, n))) ==> r == 0 && unchanged(a, b)
    &&& 0 < n <= 0xFFFF ==> forall|s: int| first_run(a, s, n) ==> large_run(a, b, s, n, align, r)
}

fn write_large_header(page: &mut Vec<u8>, n: u16)
    requires
        old(page).len() == PAGE_SIZE,
    ensures
        final(page)@ == with_large_header(old(page)@, n as int),
{
    page.set(0, 0x55);
    page.set(1, 0x46);
    page.set(2, 0x41);
    page.set(3, 0x4E);
    page.set(4, (n % 256) as u8);
    page.set(5, (n / 256) as u8);
    page.set(6, 0);
    page.set(7, 0);
}

impl Heap {
    /// Allocate `size` bytes at alignment `align` as a run of whole pages
    /// whose first page starts with a header recording the run's length.
    #[verifier::spinoff_prover]
    fn alloc_large(&mut self, size: usize, align: usize) -> (r: u64)
        requires
            old(self).wf(),
        ensures
            final(self).wf(),
            final(self).arena_base == old(self).arena_base,
            final(self).ready == old(self).ready,
            final(self).initialized == old(self).initialized,
            large_outcome(old(self), final(self), size, align, r),
    {
        let bytes_needed = size.saturating_add(align).saturating_add(LARGE_HEADER_SIZE);
        let pages = bytes_needed.wrapping_add(PAGE_SIZE - 1) / PAGE_SIZE;
        assert(pages == large_pages(size, align));
        if pages == 0 || pages > 0xFFFF {
            return 0;
        }
        let head_page = match self.alloc_contiguous_pages(pages) {
            Some(p) => p,
            None => {
                proof {
                    assert(self.page_bitmap@ == old(self).page_bitmap@);
                }
                return 0;
            },
        };
        let ghost mid = *self;
        let base = self.page_address(head_page);
        let mut i: usize = 0;
        while i < pages
            invariant
                self.wf(),
                i <= pages,
                head_page + pages <= HEAP_PAGE_COUNT,
                self.page_bitmap@ == mid.page_bitmap@,
                self.slabs@ == mid.slabs@,
                self.pages@ == mid.pages@,
                self.arena_base == mid.arena_base,
                self.ready == mid.ready,
                self.initialized == mid.initialized,
                forall|q: int| head_page <= q < head_page + pages ==> #[trigger] self.used(q),
                forall|q: int| 0 <= q < HEAP_PAGE_COUNT ==> #[trigger] self.page_kind@[q] == if head_page <= q
                    < head_page + i {
                    PAGE_KIND_LARGE
                } else {
                    mid.page_kind@[q]
                },
                forall|q: int| 0 <= q < HEAP_PAGE_COUNT ==> #[trigger] self.page_head@[q] == if head_page <= q
                    < head_page + i {
                    head_page as u16
                } else {
                    mid.page_head@[q]
                },
            decreases pages - i,
        {
            let page = head_page + i;
            let ghost prev = *self;
            self.page_kind.set(page, PAGE_KIND_LARGE);
            self.page_head.set(page, head_page as u16);
            i = i + 1;
            proof {
                assert(prev.page_bitmap@ == self.page_bitmap@);
                assert forall|p: int| 0 <= p < HEAP_PAGE_COUNT && !#[trigger] self.used(p) implies self.page_kind@[p]
                    == PAGE_KIND_FREE && self.page_head@[p] == FREE_HEAD && self.slabs@[p] == empty_slab() by {
                    assert(prev.used(p) == self.used(p));
                    if head_page <= p < head_page + pages {
                        assert(prev.used(p));
                    }
                    assert(p != page);
                    assert(self.page_kind@[p] == prev.page_kind@[p]);
                    assert(self.page_head@[p] == prev.page_head@[p]);
                }
                assert forall|q: int| head_page <= q < head_page + pages implies #[trigger] self.used(q) by {
                    assert(prev.used(q));
                }
            }
        }
        proof {
            assert(!old(self).used(head_page as int));
            assert(self.slabs@[head_page as int] == empty_slab());
        }
        let ghost looped = *self;
        write_large_header(&mut self.pages[head_page], pages as u16);
        let a: u64 = if align == 0 {
            1
        } else {
            align as u64
        };
        let r = (base + LARGE_HEADER_SIZE as u64).wrapping_add(a - 1) & !(a - 1);
        proof {
            assert forall|p: int| 0 <= p < HEAP_PAGE_COUNT implies slab_ok(
                #[trigger] self.slabs@[p],
                self.pages@[p]@,
            ) by {
                if p != head_page {
                    assert(self.pages@[p] == mid.pages@[p]);
                }
            }
            assert(self.page_bitmap@ == looped.page_bitmap@);
            assert forall|p: int| 0 <= p < HEAP_PAGE_COUNT implies #[trigger] self.pages@[p].len() == PAGE_SIZE by {
                if p != head_page {
                    assert(self.pages@[p] == looped.pages@[p]);
                } else {
                    assert(looped.wf());
                    assert(looped.pages@[p].len() == PAGE_SIZE);
                    assert(looped.pages@[p]@.len() == PAGE_SIZE);
                    assert(self.pages@[p]@ == with_large_header(looped.pages@[p]@, pages as int));
                    assert(self.pages@[p]@.len() == PAGE_SIZE);
                }
            }
            assert(self.page_bitmap.len() == HEAP_PAGE_COUNT / 8);
            assert(self.page_kind.len() == HEAP_PAGE_COUNT);
            assert(self.slabs.len() == HEAP_PAGE_COUNT);
            assert(self.pages.len() == HEAP_PAGE_COUNT);
            assert forall|p: int| 0 <= p < HEAP_PAGE_COUNT && !#[trigger] self.used(p) implies self.page_kind@[p]
                == PAGE_KIND_FREE && self.page_head@[p] == FREE_HEAD && self.slabs@[p] == empty_slab() by {
                assert(looped.used(p) == self.used(p));
            }
            assert forall|sx: int| first_run(old(self), sx, pages as int) implies sx == head_page by {
                if sx < head_page {
                    assert(!run_free(old(self), sx, pages as int));
                } else if sx > head_page {
                    assert(!run_free(old(self), head_page as int, pages as int));
                }
            }
            assert forall|q: int| 0 <= q < HEAP_PAGE_COUNT implies #[trigger] self.used(q) == ((head_page <= q
                < head_page + pages) || old(self).used(q)) by {
                assert(mid.used(q) == self.used(q));
            }
            assert(run_free(old(self), head_page as int, pages as int));
            assert(base == old(self).page_addr(head_page as int));
            assert(r == align_up((old(self).page_addr(head_page as int) + LARGE_HEADER_SIZE) as u64, user_align(align)));
            assert(self.slabs@ == old(self).slabs@);
            assert(self.pages@[head_page as int]@ == with_large_header(old(self).pages@[head_page as int]@, pages as int));
            assert(large_run(old(self), self, head_page as int, pages as int, align, r));
            assert(!(forall|sx: int| !run_free(old(self), sx, pages as int)));
            assert(forall|sx: int| first_run(old(self), sx, pages as int) ==> large_run(old(self), self, sx, pages as int, align, r));
        }
        r
    }
}

/// `b` is `a` after the slab page `head` took back an object: its page
/// reads `page` and its slab is `slab`; when the slab holds no object any
/// more (`release`) the page is returned to the free state instead.
pub open spec fn slab_returned(a: &Heap, b: &Heap, head: int, page: Seq<u8>, slab: SlabPage, release: bool) -> bool {
    &&& b.arena_base == a.arena_base
    &&& b.ready == a.ready
    &&& b.initialized == a.initialized
    &&& b.pages.len() == HEAP_PAGE_COUNT
    &&& forall|q: int| 0 <= q < HEAP_PAGE_COUNT && q != head ==> #[trigger] b.pages@[q]@ == a.pages@[q]@
    &&& b.pages@[head]@ == page
    &&& if release {
        &&& forall|q: int| 0 <= q < HEAP_PAGE_COUNT ==> #[trigger] b.used(q) == (q != head && a.used(q))
        &&& b.page_kind@ == a.page_kind@.update(head, PAGE_KIND_FREE)
        &&& b.page_head@ == a.page_head@.update(head, FREE_HEAD)
        &&& b.slabs@ == a.slabs@.update(
            head,
            empty_slab(),
        )
    } else {
        &&& b.page_bitmap@ == a.page_bitmap@
        &&& b.page_kind@ == a.page_kind@
        &&& b.page_head@ == a.page_head@
        &&& b.slabs@ == a.slabs@.update(head, slab)
    }
}

/// What freeing `ptr` does to `a`, giving `b`. A null pointer, one outside
/// the arena, one on a page that is neither slab nor large, one whose page
/// names no head page, one the slab refuses, and one whose large header
/// lacks the magic change nothing. A slab object goes back on its slab's
/// free list, and a slab left with no object releases its page. A large
/// allocation releases the pages its header counts from its head page.
pub open spec fn free_outcome(a: &Heap, b: &Heap, ptr: u64) -> bool {
    if ptr == 0 || ptr < a.arena_base || ptr >= a.arena_base + HEAP_SIZE {
        unchanged(a, b)
    } else {
        let page = (ptr - a.arena_base) / (PAGE_SIZE as int);
        let kind = a.page_kind@[page];
        let head = a.page_head@[page] as int;
        if kind == PAGE_KIND_SLAB {
            if head >= HEAP_PAGE_COUNT {
                unchanged(a, b)
            } else {
                let (ok, pg, sl) = slab_free(a.pages@[head]@, a.page_addr(head) as u64, a.slabs@[head], ptr);
                if !ok {
                    unchanged(a, b)
                } else {
                    slab_returned(a, b, head, pg, sl, sl.active && sl.in_use == 0)
                }
            }
        } else if kind == PAGE_KIND_LARGE {
            if head >= HEAP_PAGE_COUNT || header_magic(a.pages@[head]@) != LARGE_MAGIC {
                unchanged(a, b)
            } else {
                released(a, b, head, header_pages(a.pages@[head]@))
            }
        } else {
            unchanged(a, b)
        }
    }
}

/// Two distinct objects of a page lie at least one object apart.
proof fn lemma_objects_apart(i: int, j: int, size: int)
    requires
        i != j,
        0 <= i,
        0 <= j,
        size >= 16,
    ensures
        i * size + 2 <= j * size || j * size + 2 <= i * size,
{
    if i < j {
        assert(i * size + size <= j * size) by (nonlinear_arith)
            requires
                i < j,
                size >= 0,
        ;
    } else {
        assert(j * size + size <= i * size) by (nonlinear_arith)
            requires
                j < i,
                size >= 0,
        ;
    }
}

/// A slab that takes an object back stays consistent with its page.
proof fn lemma_slab_free_ok(page: Seq<u8>, page_base: u64, slab: SlabPage, ptr: u64)
    requires
        page.len() == PAGE_SIZE,
        page_base + PAGE_SIZE <= u64::MAX,
        slab_ok(slab, page),
        ptr != 0,
    ensures
        ({
            let (ok, pg, sl) = slab_free(page, page_base, slab, ptr);
            ok ==> slab_ok(sl, pg) && sl.active
        }),
{
    let (ok, pg, sl) = slab_free(page, page_base, slab, ptr);
    if ok {
        let size = class_size_of(slab.class_index as int) as int;
        let cap = slab.capacity as int;
        let off = ptr - page_base;
        let idx = off / size;
        lemma_class_capacity(slab.class_index as int);
        assert(idx * size == off) by (nonlinear_arith)
            requires
                size > 0,
                off % size == 0,
                idx == off / size,
        ;
        lemma_index_fits(idx, slab.class_index as int);
        assert forall|i: int| 0 <= i < cap implies #[trigger] link_at(pg, i * size) == FREE_LIST_END || link_at(
            pg,
            i * size,
        ) < cap by {
            lemma_index_fits(i, slab.class_index as int);
            if i == idx {
                lemma_link_roundtrip(page, off, slab.free_head);
            } else {
                lemma_objects_apart(i, idx, size);
                assert(pg[i * size] == page[i * size]);
                assert(pg[i * size + 1] == page[i * size + 1]);
                assert(link_at(pg, i * size) == link_at(page, i * size));
            }
        }
    }
}

impl Heap {
    /// Free `ptr`, with no size: a slab object goes back to its slab (the
    /// page is released once the slab is empty), a large allocation
    /// releases its run; anything else is ignored.
    #[verifier::spinoff_prover]
    fn free_inner(&mut self, ptr: u64)
        requires
            old(self).wf(),
        ensures
            final(self).wf(),
            free_outcome(old(self), final(self), ptr),
    {
        if ptr == 0 {
            return;
        }
        let base = self.arena_base;
        let end = base + HEAP_SIZE as u64;
        if ptr < base || ptr >= end {
            return;
        }
        let page = ((ptr - base) / (PAGE_SIZE as u64)) as usize;
        if page >= HEAP_PAGE_COUNT {
            return;
        }
        let kind = self.page_kind[page];
        if kind == PAGE_KIND_SLAB {
            let head_page = self.page_head[page] as usize;
            if head_page >= HEAP_PAGE_COUNT {
                return;
            }
            let addr = self.page_address(head_page);
            assert((head_page as int) * PAGE_SIZE + PAGE_SIZE <= HEAP_SIZE) by (nonlinear_arith)
                requires
                    head_page < HEAP_PAGE_COUNT,
            ;
            let mut slab = self.slabs[head_page];
            let ghost before = *self;
            proof {
                assert(self.pages@[head_page as int].len() == PAGE_SIZE);
                assert(slab_ok(self.slabs@[head_page as int], self.pages@[head_page as int]@));
                lemma_slab_free_ok(self.pages@[head_page as int]@, addr, slab, ptr);
            }
            let ok = free_to_slab(&mut self.pages[head_page], addr, &mut slab, ptr);
            if !ok {
                proof {
                    assert(same_pages(old(self), self));
                    assert forall|p: int| 0 <= p < HEAP_PAGE_COUNT implies #[trigger] self.pages@[p].len() == PAGE_SIZE by {
                        assert(self.pages@[p]@ == old(self).pages@[p]@);
                        assert(old(self).pages@[p].len() == PAGE_SIZE);
                    }
                    assert forall|p: int| 0 <= p < HEAP_PAGE_COUNT implies slab_ok(
                        #[trigger] self.slabs@[p],
                        self.pages@[p]@,
                    ) by {
                        assert(self.pages@[p]@ == old(self).pages@[p]@);
                        assert(slab_ok(old(self).slabs@[p], old(self).pages@[p]@));
                    }
                    assert(self.page_bitmap@ == old(self).page_bitmap@);
                    assert(self.slabs@ == old(self).slabs@);
                    assert(self.page_kind@ == old(self).page_kind@);
                    assert(self.pages.len() == HEAP_PAGE_COUNT);
                    assert forall|p: int| 0 <= p < HEAP_PAGE_COUNT && !#[trigger] self.used(p) implies self.page_kind@[p]
                        == PAGE_KIND_FREE && self.page_head@[p] == FREE_HEAD && self.slabs@[p] == empty_slab() by {
                        assert(old(self).used(p) == self.used(p));
                    }
                }
                return;
            }
            self.slabs.set(head_page, slab);
            proof {
                assert(self.page_bitmap@ == old(self).page_bitmap@);
                assert(old(self).used(head_page as int));
                assert forall|p: int| 0 <= p < HEAP_PAGE_COUNT implies #[trigger] self.pages@[p].len() == PAGE_SIZE by {
                    if p != head_page {
                        assert(self.pages@[p] == old(self).pages@[p]);
                    }
                }
                assert forall|p: int| 0 <= p < HEAP_PAGE_COUNT implies slab_ok(
                    #[trigger] self.slabs@[p],
                    self.pages@[p]@,
                ) by {
                    if p != head_page {
                        assert(self.pages@[p] == old(self).pages@[p]);
                        assert(self.slabs@[p] == old(self).slabs@[p]);
                    }
                }
                assert forall|p: int| 0 <= p < HEAP_PAGE_COUNT && !#[trigger] self.used(p) implies self.page_kind@[p]
                    == PAGE_KIND_FREE && self.page_head@[p] == FREE_HEAD && self.slabs@[p] == empty_slab() by {
                    assert(old(self).used(p) == self.used(p));
                    assert(p != head_page);
                }
            }
            if slab.is_empty() {
                let ghost mid = *self;
                self.free_contiguous_pages(head_page, 1);
                proof {
                    assert forall|q: int| 0 <= q < HEAP_PAGE_COUNT && q != head_page implies #[trigger] self.pages@[q]@
                        == old(self).pages@[q]@ by {
                        assert(self.pages@[q]@ == mid.pages@[q]@);
                    }
                    assert(self.pages@[head_page as int]@ == mid.pages@[head_page as int]@);
                    assert(self.page_kind@ =~= old(self).page_kind@.update(head_page as int, PAGE_KIND_FREE));
                    assert(self.page_head@ =~= old(self).page_head@.update(head_page as int, FREE_HEAD));
                    assert(self.slabs@ =~= old(self).slabs@.update(
                        head_page as int,
                        empty_slab(),
                    ));
                    assert forall|q: int| 0 <= q < HEAP_PAGE_COUNT implies #[trigger] self.used(q) == (q != head_page
                        && old(self).used(q)) by {
                        assert(mid.used(q) == old(self).used(q));
                    }
                }
            } else {
                proof {
                    assert forall|q: int| 0 <= q < HEAP_PAGE_COUNT && q != head_page implies #[trigger] self.pages@[q]@
                        == old(self).pages@[q]@ by {}
                }
            }
            return;
        }
        if kind == PAGE_KIND_LARGE {
            let head_page = self.page_head[page] as usize;
            if head_page >= HEAP_PAGE_COUNT {
                return;
            }
            let pg = &self.pages[head_page];
            assert(pg.len() == PAGE_SIZE);
            let magic: u32 = (pg[0] as u32) + (pg[1] as u32) * 256 + (pg[2] as u32) * 65536 + (pg[3] as u32)
                * 16777216;
            if magic != LARGE_MAGIC {
                return;
            }
            let count: usize = (pg[4] as usize) + (pg[5] as usize) * 256;
            self.free_contiguous_pages(head_page, count);
        }
    }
}

/// Two heaps with the same used bits have the same free runs.
proof fn lemma_same_bitmap(a: &Heap, b: &Heap)
    requires
        a.page_bitmap@ == b.page_bitmap@,
    ensures
        forall|p: int| #[trigger] a.used(p) == b.used(p),
        forall|s: int, n: int| #[trigger] run_free(a, s, n) == run_free(b, s, n),
        forall|s: int, n: int| #[trigger] first_run(a, s, n) == first_run(b, s, n),
{
    assert forall|p: int| #[trigger] a.used(p) == b.used(p) by {}
    assert forall|s: int, n: int| #[trigger] run_free(a, s, n) == run_free(b, s, n) by {
        if run_free(a, s, n) {
            assert forall|p: int| s <= p < s + n implies !#[trigger] b.used(p) by {
                assert(!a.used(p));
            }
        }
        if run_free(b, s, n) {
            assert forall|p: int| s <= p < s + n implies !#[trigger] a.used(p) by {
                assert(!b.used(p));
            }
        }
    }
    assert forall|s: int, n: int| #[trigger] first_run(a, s, n) == first_run(b, s, n) by {
        if first_run(a, s, n) {
            assert forall|s2: int| 0 <= s2 < s implies !#[trigger] run_free(b, s2, n) by {
                assert(!run_free(a, s2, n));
            }
        }
        if first_run(b, s, n) {
            assert forall|s2: int| 0 <= s2 < s implies !#[trigger] run_free(a, s2, n) by {
                assert(!run_free(b, s2, n));
            }
        }
    }
}

/// What an allocation of `size` bytes at alignment `align` does to `a`,
/// giving `b` and `r`: nothing (and 0) for 0 bytes; a slab allocation when
/// one succeeds; else a large allocation.
pub open spec fn alloc_outcome(a: &Heap, b: &Heap, size: usize, align: usize, r: u64) -> bool {
    if size == 0 {
        r == 0 && unchanged(a, b)
    } else if !small_fails(a, size, align) {
        small_outcome(a, b, size, align, r) && r != 0
    } else {
        large_outcome(a, b, size, align, r)
    }
}

/// Whether `size` bytes at alignment `align` make a valid layout: the
/// alignment a power of two and the size, rounded up to it, within
/// `isize::MAX`.
pub open spec fn layout_ok(size: usize, align: usize) -> bool {
    &&& align != 0
    &&& align & (align - 1) as usize == 0
    &&& size <= isize::MAX - (align - 1)
}

/// What `heap_alloc_c` does to `a` for `size` bytes at alignment `align`
/// (0 read as 1), giving `b` and `r`: nothing (and 0) without a valid
/// layout or before initialisation; else an allocation.
pub open spec fn alloc_c_outcome(a: &Heap, b: &Heap, size: usize, align: usize, r: u64) -> bool {
    let al = if align == 0 {
        1usize
    } else {
        align
    };
    if !layout_ok(size, al) || !a.ready {
        r == 0 && unchanged(a, b)
    } else {
        alloc_outcome(a, b, size, al, r)
    }
}

impl Heap {
    /// Allocate `size` bytes at alignment `align`: from the slab classes
    /// when a class fits and it succeeds, else as a large allocation; 0 for
    /// 0 bytes.
    fn alloc_inner(&mut self, size: usize, align: usize) -> (r: u64)
        requires
            old(self).wf(),
        ensures
            final(self).wf(),
            final(self).arena_base == old(self).arena_base,
            final(self).ready == old(self).ready,
            final(self).initialized == old(self).initialized,
            alloc_outcome(old(self), final(self), size, align, r),
    {
        if size == 0 {
            return 0;
        }
        if class_index_for(size, align).is_some() {
            let ptr = self.alloc_small(size, align);
            if ptr != 0 {
                return ptr;
            }
            let ghost mid = *self;
            let r = self.alloc_large(size, align);
            proof {
                assert(unchanged(old(self), &mid));
                lemma_same_bitmap(old(self), &mid);
                assert(large_outcome(old(self), self, size, align, r)) by {
                    let n = large_pages(size, align) as int;
                    if n == 0 || n > 0xFFFF || (forall|sx: int| !run_free(old(self), sx, n)) {
                        assert(forall|sx: int| !run_free(old(self), sx, n) ==> !#[trigger] run_free(&mid, sx, n));
                        assert(r == 0 && unchanged(&mid, self));
                        assert forall|q: int| 0 <= q < old(self).pages.len() implies #[trigger] self.pages@[q]@
                            == old(self).pages@[q]@ by {
                            assert(mid.pages@[q]@ == old(self).pages@[q]@);
                        }
                    }
                    assert forall|sx: int| first_run(old(self), sx, n) implies large_run(old(self), self, sx, n, align, r)
                        by {
                        assert(first_run(&mid, sx, n));
                        assert(large_run(&mid, self, sx, n, align, r));
                        assert forall|q: int| 0 <= q < HEAP_PAGE_COUNT implies #[trigger] self.used(q) == ((sx <= q
                            < sx + n) || old(self).used(q)) by {
                            assert(mid.used(q) == old(self).used(q));
                        }
                        assert forall|q: int| 0 <= q < HEAP_PAGE_COUNT && q != sx implies #[trigger] self.pages@[q]@
                            == old(self).pages@[q]@ by {
                            assert(self.pages@[q]@ == mid.pages@[q]@);
                        }
                        assert(mid.pages@[sx]@ == old(self).pages@[sx]@);
                    }
                }
            }
            return r;
        }
        self.alloc_large(size, align)
    }

    /// Reset the heap to empty and mark it ready: every page unused, free,
    /// without head or slab. Page contents stay as they are.
    pub fn heap_init(&mut self) -> (r: Result<(), &'static str>)
        requires
            old(self).wf(),
        ensures
            r is Ok,
            final(self).wf(),
            final(self).ready,
            final(self).initialized,
            final(self).arena_base == old(self).arena_base,
            same_pages(old(self), final(self)),
            forall|p: int| 0 <= p < HEAP_PAGE_COUNT ==> !#[trigger] final(self).used(p),
    {
        let mut i: usize = 0;
        while i < HEAP_PAGE_COUNT
            invariant
                i <= HEAP_PAGE_COUNT,
                self.page_bitmap.len() == HEAP_PAGE_COUNT / 8,
                self.page_kind.len() == HEAP_PAGE_COUNT,
                self.page_head.len() == HEAP_PAGE_COUNT,
                self.slabs.len() == HEAP_PAGE_COUNT,
                self.pages@ == old(self).pages@,
                self.arena_base == old(self).arena_base,
                old(self).wf(),
                forall|p: int| 0 <= p < i ==> #[trigger] self.page_kind@[p] == PAGE_KIND_FREE,
                forall|p: int| 0 <= p < i ==> #[trigger] self.page_head@[p] == FREE_HEAD,
                forall|p: int| 0 <= p < i ==> #[trigger] self.slabs@[p] == empty_slab(),
            decreases HEAP_PAGE_COUNT - i,
        {
            self.page_kind.set(i, PAGE_KIND_FREE);
            self.page_head.set(i, FREE_HEAD);
            self.slabs.set(i, SlabPage::empty());
            i = i + 1;
        }
        let mut j: usize = 0;
        while j < HEAP_PAGE_COUNT / 8
            invariant
                j <= HEAP_PAGE_COUNT / 8,
                self.page_bitmap.len() == HEAP_PAGE_COUNT / 8,
                self.page_kind.len() == HEAP_PAGE_COUNT,
                self.page_head.len() == HEAP_PAGE_COUNT,
                self.slabs.len() == HEAP_PAGE_COUNT,
                self.pages@ == old(self).pages@,
                self.arena_base == old(self).arena_base,
                old(self).wf(),
                forall|p: int| 0 <= p < HEAP_PAGE_COUNT ==> #[trigger] self.page_kind@[p] == PAGE_KIND_FREE,
                forall|p: int| 0 <= p < HEAP_PAGE_COUNT ==> #[trigger] self.page_head@[p] == FREE_HEAD,
                forall|p: int| 0 <= p < HEAP_PAGE_COUNT ==> #[trigger] self.slabs@[p] == empty_slab(),
                forall|k: int| 0 <= k < j ==> #[trigger] self.page_bitmap@[k] == 0u8,
            decreases HEAP_PAGE_COUNT / 8 - j,
        {
            self.page_bitmap.set(j, 0);
            j = j + 1;
        }
        self.initialized = true;
        self.ready = true;
        proof {
            assert forall|p: int| 0 <= p < HEAP_PAGE_COUNT implies !#[trigger] self.used(p) by {
                assert(self.page_bitmap@[p / 8] == 0u8);
                assert(0u8 & (1u8 << ((p % 8) as u8)) == 0) by (bit_vector);
            }
            assert forall|p: int| 0 <= p < HEAP_PAGE_COUNT implies #[trigger] self.pages@[p].len() == PAGE_SIZE by {
                assert(old(self).pages@[p].len() == PAGE_SIZE);
            }
        }
        Ok(())
    }

    /// Whether the heap has been initialised.
    pub fn heap_is_initialized(&self) -> (r: bool)
        ensures
            r == self.ready,
    {
        self.ready
    }

    /// Allocate `size` bytes at alignment `align`; 0 (nothing changes)
    /// before the heap is initialised.
    pub fn heap_alloc(&mut self, size: usize, align: usize) -> (r: u64)
        requires
            old(self).wf(),
        ensures
            final(self).wf(),
            final(self).arena_base == old(self).arena_base,
            final(self).ready == old(self).ready,
            final(self).initialized == old(self).initialized,
            !old(self).ready ==> r == 0 && unchanged(old(self), final(self)),
            old(self).ready ==> alloc_outcome(old(self), final(self), size, align, r),
    {
        if !self.heap_is_initialized() {
            return 0;
        }
        self.alloc_inner(size, align)
    }

    /// Free `ptr` (from `heap_alloc`); nothing changes before the heap is
    /// initialised.
    pub fn heap_dealloc(&mut self, ptr: u64)
        requires
            old(self).wf(),
        ensures
            final(self).wf(),
            final(self).arena_base == old(self).arena_base,
            final(self).ready == old(self).ready,
            !old(self).ready ==> unchanged(old(self), final(self)),
            old(self).ready ==> free_outcome(old(self), final(self), ptr),
    {
        if !self.heap_is_initialized() {
            return;
        }
        self.free_inner(ptr);
    }

    /// Initialise the heap; 0 on success.
    pub fn heap_init_c(&mut self) -> (r: i32)
        requires
            old(self).wf(),
        ensures
            r == 0,
            final(self).wf(),
            final(self).ready,
            final(self).arena_base == old(self).arena_base,
            same_pages(old(self), final(self)),
            forall|p: int| 0 <= p < HEAP_PAGE_COUNT ==> !#[trigger] final(self).used(p),
    {
        match self.heap_init() {
            Ok(()) => 0,
            Err(_) => -1,
        }
    }

    /// 1 when the heap is initialised, else 0.
    pub fn heap_is_initialized_c(&self) -> (r: u8)
        ensures
            r == if self.ready {
                1u8
            } else {
                0u8
            },
    {
        if self.heap_is_initialized() {
            1
        } else {
            0
        }
    }

    /// Allocate `size` bytes at alignment `align` (0 read as 1); 0 (nothing
    /// changes) when the two make no valid layout.
    pub fn heap_alloc_c(&mut self, size: usize, align: usize) -> (r: u64)
        requires
            old(self).wf(),
        ensures
            final(self).wf(),
            final(self).arena_base == old(self).arena_base,
            final(self).ready == old(self).ready,
            alloc_c_outcome(old(self), final(self), size, align, r),
    {
        let safe_align: usize = if align == 0 {
            1
        } else {
            align
        };
        if safe_align & (safe_align - 1) != 0 {
            return 0;
        }
        if safe_align - 1 > isize::MAX as usize || size > (isize::MAX as usize) - (safe_align - 1) {
            return 0;
        }
        self.heap_alloc(size, safe_align)
    }

    /// Free `ptr` (from `heap_alloc_c`).
    pub fn heap_dealloc_c(&mut self, ptr: u64)
        requires
            old(self).wf(),
        ensures
            final(self).wf(),
            !old(self).ready ==> unchanged(old(self), final(self)),
            old(self).ready ==> free_outcome(old(self), final(self), ptr),
    {
        self.heap_dealloc(ptr);
    }
}

/// Rounding `v` up to a power of two `a` (no wrap) lands in `v .. v + a`.
proof fn lemma_align_up_bounds(v: u64, a: u64, w: u64)
    by (bit_vector)
    requires
        a != 0,
        a & (a - 1) as u64 == 0,
        w == v + (a - 1),
    ensures
        v <= w & !((a - 1) as u64),
        w & !((a - 1) as u64) <= w,
{
}

/// A power of two of `usize` is one of `u64` too.
proof fn lemma_pow2_u64(align: usize)
    by (bit_vector)
    requires
        align != 0,
        align & (align - 1) as usize == 0,
    ensures
        (align as u64) & ((align as u64) - 1) as u64 == 0,
{
}

/// Some run of `n` free pages at or before `s0` is the first one.
proof fn lemma_first_run_exists(h: &Heap, s0: int, n: int) -> (s: int)
    requires
        run_free(h, s0, n),
    ensures
        first_run(h, s, n),
    decreases s0,
{
    if forall|s2: int| 0 <= s2 < s0 ==> !#[trigger] run_free(h, s2, n) {
        s0
    } else {
        let s2 = choose|s2: int| 0 <= s2 < s0 && #[trigger] run_free(h, s2, n);
        lemma_first_run_exists(h, s2, n)
    }
}

/// Some candidate page of class `c` gives a first one.
proof fn lemma_first_candidate_exists(h: &Heap, p0: int, c: int) -> (p: int)
    requires
        0 <= p0 < HEAP_PAGE_COUNT,
        candidate(h, p0, c),
    ensures
        first_candidate(h, p, c),
    decreases p0,
{
    if forall|q: int| 0 <= q < p0 ==> !#[trigger] candidate(h, q, c) {
        p0
    } else {
        let q = choose|q: int| 0 <= q < p0 && #[trigger] candidate(h, q, c);
        lemma_first_candidate_exists(h, q, c)
    }
}

/// Freeing the address a slab allocation answered gives the heap's
/// bookkeeping (used bits, page kinds, heads and slabs) back as it was
/// before the allocation, whether the object came from a slab page in use
/// or from a fresh one; a slab page in use must name itself as its head
/// and count its objects in use below the counter's top.
pub proof fn lemma_small_alloc_then_free(h0: &Heap, h1: &Heap, h2: &Heap, size: usize, align: usize, r: u64)
    requires
        h0.wf(),
        small_outcome(h0, h1, size, align, r),
        r != 0,
        free_outcome(h1, h2, r),
        forall|p: int|
            0 <= p < HEAP_PAGE_COUNT && h0.page_kind@[p] == PAGE_KIND_SLAB && #[trigger] h0.slabs@[p].active
                ==> h0.page_head@[p] == p && 0 < h0.slabs@[p].in_use < u16::MAX,
    ensures
        forall|q: int| 0 <= q < HEAP_PAGE_COUNT ==> #[trigger] h2.used(q) == h0.used(q),
        h2.page_kind@ == h0.page_kind@,
        h2.page_head@ == h0.page_head@,
        h2.slabs@ == h0.slabs@,
{
    let c = class_for_need(slab_need(size, align))->0 as int;
    assert(0 <= c < SLAB_CLASS_COUNT);
    let csize = class_size_of(c) as int;
    lemma_class_capacity(c);
    let base = h0.arena_base as int;
    if !no_candidate(h0, c) {
        let p0 = choose|p: int| 0 <= p < HEAP_PAGE_COUNT && #[trigger] candidate(h0, p, c);
        let p = lemma_first_candidate_exists(h0, p0, c);
        assert(took_from_slab(h0, h1, p, r));
        let slab0 = h0.slabs@[p];
        assert(slab_ok(slab0, h0.pages@[p]@));
        let f = slab0.free_head as int;
        assert(f < slab0.capacity);
        lemma_index_fits(f, c);
        let off = f * csize;
        assert(0 <= off && off + csize <= PAGE_SIZE) by (nonlinear_arith)
            requires
                off == f * csize,
                f >= 0,
                csize >= 16,
                f * csize + csize <= PAGE_SIZE,
        ;
        assert(p * PAGE_SIZE + PAGE_SIZE <= HEAP_SIZE) by (nonlinear_arith)
            requires
                0 <= p < HEAP_PAGE_COUNT,
        ;
        assert(r == base + p * PAGE_SIZE + off);
        let page = (r - base) / (PAGE_SIZE as int);
        assert(page == p) by (nonlinear_arith)
            requires
                page == (r - base) / (PAGE_SIZE as int),
                r - base == p * PAGE_SIZE + off,
                0 <= off < PAGE_SIZE,
        ;
        assert(h0.page_head@[p] == p);
        assert(off % csize == 0 && off / csize == f) by (nonlinear_arith)
            requires
                off == f * csize,
                f >= 0,
                csize > 0,
        ;
        let (addr1, slab1) = slab_alloc(h0.pages@[p]@, h0.page_addr(p) as u64, slab0);
        assert(h1.slabs@[p] == slab1);
        assert(slab1.active && slab1.class_index == c && slab1.capacity == slab0.capacity);
        assert(h1.page_addr(p) == base + p * PAGE_SIZE);
        let (ok, pg, sl) = slab_free(h1.pages@[p]@, h1.page_addr(p) as u64, h1.slabs@[p], r);
        assert(ok);
        assert(sl == slab0);
        assert(h2.slabs@ =~= h0.slabs@);
        assert(h2.page_bitmap@ == h0.page_bitmap@);
    } else {
        if forall|s: int| !run_free(h0, s, 1) {
            assert(false);
        }
        let s0 = choose|s: int| run_free(h0, s, 1);
        let s = lemma_first_run_exists(h0, s0, 1);
        assert(fresh_slab(h0, h1, s, c, r));
        assert(!h0.used(s));
        assert(s * PAGE_SIZE + PAGE_SIZE <= HEAP_SIZE) by (nonlinear_arith)
            requires
                0 <= s < HEAP_PAGE_COUNT,
        ;
        let page = (r - base) / (PAGE_SIZE as int);
        assert(page == s) by (nonlinear_arith)
            requires
                page == (r - base) / (PAGE_SIZE as int),
                r - base == s * PAGE_SIZE,
        ;
        assert(0int % csize == 0 && 0int / csize == 0) by (nonlinear_arith)
            requires
                csize > 0,
        ;
        assert(h1.page_addr(s) == base + s * PAGE_SIZE);
        assert(h1.slabs@[s].active && h1.slabs@[s].class_index == c && h1.slabs@[s].capacity >= 2);
        let (ok, pg, sl) = slab_free(h1.pages@[s]@, h1.page_addr(s) as u64, h1.slabs@[s], r);
        assert(ok);
        assert(sl.active && sl.in_use == 0);
        assert(h2.page_kind@ =~= h0.page_kind@);
        assert(h2.page_head@ =~= h0.page_head@);
        assert(h2.slabs@ =~= h0.slabs@);
    }
}

/// Freeing the address a large allocation answered gives the heap's
/// bookkeeping (used bits, page kinds, heads and slabs) back as it was
/// before the allocation, for any power-of-two alignment.
pub proof fn lemma_large_alloc_then_free(h0: &Heap, h1: &Heap, h2: &Heap, size: usize, align: usize, r: u64)
    requires
        h0.wf(),
        align != 0,
        align & (align - 1) as usize == 0,
        large_outcome(h0, h1, size, align, r),
        r != 0,
        free_outcome(h1, h2, r),
    ensures
        forall|q: int| 0 <= q < HEAP_PAGE_COUNT ==> #[trigger] h2.used(q) == h0.used(q),
        h2.page_kind@ == h0.page_kind@,
        h2.page_head@ == h0.page_head@,
        h2.slabs@ == h0.slabs@,
{
    let n = large_pages(size, align) as int;
    assert(0 < n <= 0xFFFF);
    let s0 = choose|sx: int| run_free(h0, sx, n);
    let s = lemma_first_run_exists(h0, s0, n);
    assert(large_run(h0, h1, s, n, align, r));
    assert(s + n <= HEAP_PAGE_COUNT);
    // The request took whole pages for its bytes, its slack and the header,
    // with nothing saturated or wrapped.
    let sum1 = size.saturating_add(align);
    let bytes = sum1.saturating_add(LARGE_HEADER_SIZE);
    assert(bytes + (PAGE_SIZE - 1) <= usize::MAX);
    assert(bytes == size + align + LARGE_HEADER_SIZE);
    assert(n * PAGE_SIZE >= bytes) by (nonlinear_arith)
        requires
            n == (bytes + (PAGE_SIZE - 1)) / (PAGE_SIZE as int),
            bytes >= 0,
    ;
    // The answered address lies inside the run, past the header.
    let addr = h0.page_addr(s);
    assert(s * PAGE_SIZE + n * PAGE_SIZE <= HEAP_SIZE) by (nonlinear_arith)
        requires
            s + n <= HEAP_PAGE_COUNT,
            s >= 0,
            n >= 0,
    ;
    let v = (addr + LARGE_HEADER_SIZE) as u64;
    let a = align as u64;
    lemma_pow2_u64(align);
    let w = (v + (a - 1)) as u64;
    lemma_align_up_bounds(v, a, w);
    assert(r == w & !((a - 1) as u64));
    assert(addr + LARGE_HEADER_SIZE <= r < addr + n * PAGE_SIZE);
    let page = (r - h0.arena_base) / (PAGE_SIZE as int);
    assert(s <= page < s + n) by (nonlinear_arith)
        requires
            page == (r - h0.arena_base) / (PAGE_SIZE as int),
            s * PAGE_SIZE + LARGE_HEADER_SIZE <= r - h0.arena_base < s * PAGE_SIZE + n * PAGE_SIZE,
    ;
    // Its page is a large page headed by the run's first page, whose header
    // names the run.
    assert(h1.page_kind@[page] == PAGE_KIND_LARGE);
    assert(h1.page_head@[page] as int == s);
    assert(h0.pages@[s].len() == PAGE_SIZE);
    assert(header_magic(h1.pages@[s]@) == LARGE_MAGIC);
    assert(header_pages(h1.pages@[s]@) == n);
    assert(released(h1, h2, s, n));
    assert forall|q: int| 0 <= q < HEAP_PAGE_COUNT implies #[trigger] h2.used(q) == h0.used(q) by {
        assert(h1.used(q) == ((s <= q < s + n) || h0.used(q)));
    }
    assert forall|q: int| 0 <= q < HEAP_PAGE_COUNT && s <= q < s + n implies !#[trigger] h0.used(q) by {}
    assert forall|q: int| 0 <= q < HEAP_PAGE_COUNT implies #[trigger] h2.page_kind@[q] == h0.page_kind@[q]
        && h2.page_head@[q] == h0.page_head@[q] by {
        if s <= q < s + n {
            assert(!h0.used(q));
        } else {
            assert(h1.page_kind@[q] == h0.page_kind@[q]);
            assert(h1.page_head@[q] == h0.page_head@[q]);
        }
    }
    assert forall|q: int| 0 <= q < HEAP_PAGE_COUNT implies #[trigger] h2.page_head@[q] == h0.page_head@[q] by {
        assert(h2.page_kind@[q] == h0.page_kind@[q]);
    }
    assert forall|q: int| 0 <= q < HEAP_PAGE_COUNT implies #[trigger] h2.slabs@[q] == h0.slabs@[q] by {
        if s <= q < s + n {
            assert(!h0.used(q));
        } else {
            assert(h1.slabs@[q] == h0.slabs@[q]);
        }
    }
    assert(h2.page_kind@ =~= h0.page_kind@);
    assert(h2.page_head@ =~= h0.page_head@);
    assert(h2.slabs@ =~= h0.slabs@);
}

/// Freeing the address an allocation answered (from a slab or a run of
/// pages, for any power-of-two alignment) gives the heap's bookkeeping back
/// as it was before the allocation; slab pages in use must name themselves
/// as their head and count their objects in use below the counter's top.
pub proof fn lemma_alloc_then_free(h0: &Heap, h1: &Heap, h2: &Heap, size: usize, align: usize, r: u64)
    requires
        h0.wf(),
        align != 0,
        align & (align - 1) as usize == 0,
        alloc_outcome(h0, h1, size, align, r),
        r != 0,
        free_outcome(h1, h2, r),
        forall|p: int|
            0 <= p < HEAP_PAGE_COUNT && h0.page_kind@[p] == PAGE_KIND_SLAB && #[trigger] h0.slabs@[p].active
                ==> h0.page_head@[p] == p && 0 < h0.slabs@[p].in_use < u16::MAX,
    ensures
        forall|q: int| 0 <= q < HEAP_PAGE_COUNT ==> #[trigger] h2.used(q) == h0.used(q),
        h2.page_kind@ == h0.page_kind@,
        h2.page_head@ == h0.page_head@,
        h2.slabs@ == h0.slabs@,
{
    if !small_fails(h0, size, align) {
        lemma_small_alloc_then_free(h0, h1, h2, size, align, r);
    } else {
        lemma_large_alloc_then_free(h0, h1, h2, size, align, r);
    }
}

} // verus!
