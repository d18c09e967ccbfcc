//! The kernel's allocator: a small bump area serves requests until the heap
//! is initialised, and whenever the heap cannot; freed blocks go back to the
//! heap only (the bump area never reclaims).
use vstd::prelude::*;
use crate::heap::{alloc_c_outcome, free_outcome, layout_ok, unchanged, Heap};

verus! {

/// Size of the early bump area.
pub const EARLY_HEAP_SIZE: usize = 0x4_0000;

/// Smallest alignment the bump area hands out.
pub const EARLY_MIN_ALIGN: usize = 16;

/// Alignment `kmalloc` asks for.
pub const KMALLOC_ALIGN: usize = 16;

/// The alignment the bump area uses for a request: at least 16.
pub open spec fn early_align(align: usize) -> usize {
    if align > EARLY_MIN_ALIGN {
        align
    } else {
        EARLY_MIN_ALIGN
    }
}

/// `offset` rounded up to the bump area's alignment for `align` (wrapping).
pub open spec fn early_start(offset: usize, align: usize) -> usize {
    offset.wrapping_add((early_align(align) - 1) as usize) & !((early_align(align) - 1) as usize)
}

/// The bump area: the offset of its first unused byte.
pub struct EarlyHeap {
    pub offset: usize,
}

impl EarlyHeap {
    /// An empty bump area.
    pub fn new() -> (r: EarlyHeap)
        ensures
            r.offset == 0,
    {
        EarlyHeap { offset: 0 }
    }

    /// Take `size` bytes at alignment `align` (at least 16): the block's
    /// offset, the offset moving past it; `None` (nothing changes) when the
    /// block would end past the area.
    pub fn alloc_early(&mut self, size: usize, align: usize) -> (r: Option<usize>)
        ensures
            ({
                let start = early_start(old(self).offset, align);
                let next = start.saturating_add(size);
                &&& next > EARLY_HEAP_SIZE ==> r is None && final(self).offset == old(self).offset
                &&& next <= EARLY_HEAP_SIZE ==> r == Some(start) && final(self).offset == next
            }),
    {
        let a: usize = if align > EARLY_MIN_ALIGN {
            align
        } else {
            EARLY_MIN_ALIGN
        };
        let aligned = self.offset.wrapping_add(a - 1) & !(a - 1);
        let next = aligned.saturating_add(size);
        if next > EARLY_HEAP_SIZE {
            return None;
        }
        self.offset = next;
        Some(aligned)
    }
}

/// The allocator: the heap, the bump area and the bump area's address.
pub struct KernelAllocator {
    pub heap: Heap,
    pub early: EarlyHeap,
    pub early_base: u64,
}

/// What `allocate` does to `a` for `size` bytes at alignment `align`, giving
/// `b` and `r`: once the heap is initialised it asks the heap, and a nonzero
/// answer is the result; else (or before) the bump area serves the request
/// (its address, or 0 when it is full).
pub open spec fn kernel_alloc_outcome(a: &KernelAllocator, b: &KernelAllocator, size: usize, align: usize, r: u64) -> bool {
    let early_part = {
        let start = early_start(a.early.offset, align);
        let next = start.saturating_add(size);
        if next > EARLY_HEAP_SIZE {
            r == 0 && b.early.offset == a.early.offset
        } else {
            r == a.early_base + start && b.early.offset == next
        }
    };
    &&& b.early_base == a.early_base
    &&& if a.heap.ready {
        exists|hr: u64|
            #[trigger] alloc_c_outcome(&a.heap, &b.heap, size, align, hr) && if hr != 0 {
                r == hr && b.early.offset == a.early.offset
            } else {
                early_part
            }
    } else {
        unchanged(&a.heap, &b.heap) && early_part
    }
}

impl KernelAllocator {
    /// An allocator over `heap` with an empty bump area at `early_base`.
    pub fn new(heap: Heap, early_base: u64) -> (r: KernelAllocator)
        ensures
            r.heap == heap,
            r.early.offset == 0,
            r.early_base == early_base,
    {
        KernelAllocator { heap, early: EarlyHeap::new(), early_base }
    }

    /// Serve `size` bytes at alignment `align` from the bump area; 0 when
    /// it is full.
    fn alloc_early(&mut self, size: usize, align: usize) -> (r: u64)
        requires
            old(self).early_base + EARLY_HEAP_SIZE <= u64::MAX,
        ensures
            final(self).heap == old(self).heap,
            final(self).early_base == old(self).early_base,
            ({
                let start = early_start(old(self).early.offset, align);
                let next = start.saturating_add(size);
                if next > EARLY_HEAP_SIZE {
                    r == 0 && final(self).early.offset == old(self).early.offset
                } else {
                    r == old(self).early_base + start && final(self).early.offset == next
                }
            }),
    {
        match self.early.alloc_early(size, align) {
            Some(off) => self.early_base + off as u64,
            None => 0,
        }
    }

    /// Allocate `size` bytes at alignment `align`: from the heap once it is
    /// initialised, else, or when the heap cannot serve it, from the bump
    /// area; 0 when neither can.
    pub fn allocate(&mut self, size: usize, align: usize) -> (r: u64)
        requires
            old(self).heap.wf(),
            old(self).early_base + EARLY_HEAP_SIZE <= u64::MAX,
        ensures
            final(self).heap.wf(),
            kernel_alloc_outcome(old(self), final(self), size, align, r),
    {
        if self.heap.heap_is_initialized_c() != 0 {
            let hr = self.heap.heap_alloc_c(size, align);
            if hr != 0 {
                assert(alloc_c_outcome(&old(self).heap, &self.heap, size, align, hr));
                return hr;
            }
            let r = self.alloc_early(size, align);
            assert(alloc_c_outcome(&old(self).heap, &self.heap, size, align, hr));
            return r;
        }
        self.alloc_early(size, align)
    }

    /// Give `ptr` back: to the heap once it is initialised; bump-area
    /// blocks are never reclaimed.
    pub fn dealloc(&mut self, ptr: u64)
        requires
            old(self).heap.wf(),
        ensures
            final(self).heap.wf(),
            final(self).early.offset == old(self).early.offset,
            final(self).early_base == old(self).early_base,
            !old(self).heap.ready ==> unchanged(&old(self).heap, &final(self).heap),
            old(self).heap.ready ==> free_outcome(&old(self).heap, &final(self).heap, ptr),
    {
        if self.heap.heap_is_initialized_c() != 0 {
            self.heap.heap_dealloc_c(ptr);
        }
    }

    /// Allocate `size` bytes aligned to 16; 0 when that makes no valid
    /// layout or nothing can serve it.
    pub fn kmalloc(&mut self, size: usize) -> (r: u64)
        requires
            old(self).heap.wf(),
            old(self).early_base + EARLY_HEAP_SIZE <= u64::MAX,
        ensures
            final(self).heap.wf(),
            !layout_ok(size, KMALLOC_ALIGN) ==> r == 0 && unchanged(&old(self).heap, &final(self).heap)
                && final(self).early.offset == old(self).early.offset,
            layout_ok(size, KMALLOC_ALIGN) ==> kernel_alloc_outcome(old(self), final(self), size, KMALLOC_ALIGN, r),
    {
        if size > (isize::MAX as usize) - (KMALLOC_ALIGN - 1) {
            return 0;
        }
        assert(KMALLOC_ALIGN & (KMALLOC_ALIGN - 1) as usize == 0) by (bit_vector);
        self.allocate(size, KMALLOC_ALIGN)
    }

    /// Give `ptr` back to the heap once it is initialised.
    pub fn kfree(&mut self, ptr: u64)
        requires
            old(self).heap.wf(),
        ensures
            final(self).heap.wf(),
            final(self).early.offset == old(self).early.offset,
            !old(self).heap.ready ==> unchanged(&old(self).heap, &final(self).heap),
            old(self).heap.ready ==> free_outcome(&old(self).heap, &final(self).heap, ptr),
    {
        self.dealloc(ptr);
    }
}

} // verus!
