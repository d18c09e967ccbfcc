//! Slab pages: a 4 KiB page cut into objects of one size class, the free
//! objects chained through a 16-bit index stored at the start of each.
use vstd::prelude::*;

verus! {

/// Size of a slab page.
pub const PAGE_SIZE: usize = 4096;

/// Number of size classes.
pub const SLAB_CLASS_COUNT: usize = 8;

/// End of a free list.
pub const FREE_LIST_END: u16 = 0xFFFF;

/// Object size of class `i` (16, 32, ..., 2048); 0 past the last class.
pub open spec fn class_size_of(i: int) -> usize {
    if i == 0 {
        16
    } else if i == 1 {
        32
    } else if i == 2 {
        64
    } else if i == 3 {
        128
    } else if i == 4 {
        256
    } else if i == 5 {
        512
    } else if i == 6 {
        1024
    } else if i == 7 {
        2048
    } else {
        0
    }
}

/// Object size of class `class_index`; 0 past the last class.
pub fn class_size(class_index: usize) -> (r: usize)
    ensures
        r == class_size_of(class_index as int),
{
    match class_index {
        0 => 16,
        1 => 32,
        2 => 64,
        3 => 128,
        4 => 256,
        5 => 512,
        6 => 1024,
        7 => 2048,
        _ => 0,
    }
}

/// Bytes an object must span for `size` bytes at alignment `align`: the
/// larger of the two, and at least the 2-byte link.
pub open spec fn slab_need(size: usize, align: usize) -> int {
    let m = if size >= align {
        size as int
    } else {
        align as int
    };
    if m < 2 {
        2
    } else {
        m
    }
}

/// The smallest class whose objects span `need` bytes; `None` above 2048.
pub open spec fn class_for_need(need: int) -> Option<usize> {
    if need <= 16 {
        Some(0)
    } else if need <= 32 {
        Some(1)
    } else if need <= 64 {
        Some(2)
    } else if need <= 128 {
        Some(3)
    } else if need <= 256 {
        Some(4)
    } else if need <= 512 {
        Some(5)
    } else if need <= 1024 {
        Some(6)
    } else if need <= 2048 {
        Some(7)
    } else {
        None
    }
}

/// The smallest class whose objects hold `size` bytes at alignment
/// `align` (and at least the 2-byte link); `None` above 2048 bytes.
pub fn class_index_for(size: usize, align: usize) -> (r: Option<usize>)
    ensures
        r == class_for_need(slab_need(size, align)),
        ({
            let need = if size >= align && size >= 2 {
                size as int
            } else if align >= 2 {
                if size >= align { size as int } else { align as int }
            } else {
                2
            };
            &&& r is None <==> need > 2048
            &&& r matches Some(i) ==> i < SLAB_CLASS_COUNT && need <= class_size_of(i as int) && (i == 0
                || need > class_size_of(i - 1))
        }),
{
    let mut required = if size > align {
        size
    } else {
        align
    };
    if required < 2 {
        required = 2;
    }
    let mut i: usize = 0;
    while i < SLAB_CLASS_COUNT
        invariant
            i <= SLAB_CLASS_COUNT,
            required == (if size >= align && size >= 2 {
                size as int
            } else if align >= 2 {
                if size >= align { size as int } else { align as int }
            } else {
                2
            }),
            i == 0 || required > class_size_of(i - 1),
        decreases SLAB_CLASS_COUNT - i,
    {
        if required <= class_size(i) {
            return Some(i);
        }
        i = i + 1;
    }
    None
}

/// An object-aligned offset inside the page leaves room for the whole
/// object.
proof fn lemma_object_fits(offset: int, class: int)
    requires
        0 <= class < SLAB_CLASS_COUNT,
        0 <= offset < PAGE_SIZE,
        offset % (class_size_of(class) as int) == 0,
    ensures
        offset + class_size_of(class) <= PAGE_SIZE,
{
    let size = class_size_of(class) as int;
    vstd::arithmetic::div_mod::lemma_fundamental_div_mod(offset, size);
    vstd::arithmetic::div_mod::lemma_fundamental_div_mod(PAGE_SIZE as int, size);
    assert(PAGE_SIZE as int % size == 0);
    let a = offset / size;
    let b = PAGE_SIZE as int / size;
    assert(offset + size <= PAGE_SIZE) by (nonlinear_arith)
        requires
            offset == size * a,
            PAGE_SIZE == size * b,
            offset < PAGE_SIZE,
            size > 0,
    ;
}

/// An object index below the page's capacity leaves room for the whole
/// object inside the page.
pub proof fn lemma_index_fits(i: int, class: int)
    requires
        0 <= class < SLAB_CLASS_COUNT,
        0 <= i < PAGE_SIZE / class_size_of(class),
    ensures
        i * class_size_of(class) + class_size_of(class) <= PAGE_SIZE,
        class_size_of(class) >= 16,
{
    let size = class_size_of(class) as int;
    let cap = PAGE_SIZE as int / size;
    vstd::arithmetic::div_mod::lemma_fundamental_div_mod(PAGE_SIZE as int, size);
    assert(i * size + size <= PAGE_SIZE) by (nonlinear_arith)
        requires
            i < cap,
            cap * size <= PAGE_SIZE,
            size > 0,
            i >= 0,
    ;
}

/// Every class cuts the page into at least two objects, exactly.
pub proof fn lemma_class_capacity(class: int)
    requires
        0 <= class < SLAB_CLASS_COUNT,
    ensures
        PAGE_SIZE / class_size_of(class) >= 2,
        PAGE_SIZE / class_size_of(class) <= 256,
        (PAGE_SIZE / class_size_of(class)) * class_size_of(class) == PAGE_SIZE,
        class_size_of(class) >= 16,
{
    if class == 0 {
        assert(PAGE_SIZE / 16usize == 256);
    } else if class == 1 {
        assert(PAGE_SIZE / 32usize == 128);
    } else if class == 2 {
        assert(PAGE_SIZE / 64usize == 64);
    } else if class == 3 {
        assert(PAGE_SIZE / 128usize == 32);
    } else if class == 4 {
        assert(PAGE_SIZE / 256usize == 16);
    } else if class == 5 {
        assert(PAGE_SIZE / 512usize == 8);
    } else if class == 6 {
        assert(PAGE_SIZE / 1024usize == 4);
    } else {
        assert(PAGE_SIZE / 2048usize == 2);
    }
}

/// Bookkeeping of one slab page.
#[derive(Clone, Copy, Debug)]
pub struct SlabPage {
    pub active: bool,
    pub class_index: u8,
    pub free_head: u16,
    pub in_use: u16,
    pub capacity: u16,
}

impl SlabPage {
    /// An unused slab page.
    pub fn empty() -> (r: SlabPage)
        ensures
            r == (SlabPage { active: false, class_index: 0, free_head: FREE_LIST_END, in_use: 0, capacity: 0 }),
    {
        SlabPage { active: false, class_index: 0, free_head: FREE_LIST_END, in_use: 0, capacity: 0 }
    }

    /// Whether an object can be taken from the page.
    pub fn has_free_objects(&self) -> (r: bool)
        ensures
            r == (self.active && self.free_head != FREE_LIST_END),
    {
        self.active && self.free_head != FREE_LIST_END
    }

    /// Whether the page is in use with no object taken.
    pub fn is_empty(&self) -> (r: bool)
        ensures
            r == (self.active && self.in_use == 0),
    {
        self.active && self.in_use == 0
    }
}

/// The little-endian 16-bit link stored at byte `off` of `page`.
pub open spec fn link_at(page: Seq<u8>, off: int) -> u16 {
    ((page[off] as u16) | ((page[off + 1] as u16) << 8u16)) as u16
}

/// `page` with the 16-bit link `v` stored at byte `off`.
pub open spec fn with_link(page: Seq<u8>, off: int, v: u16) -> Seq<u8> {
    page.update(off, (v & 0xFF) as u8).update(off + 1, (v >> 8u16) as u8)
}

pub proof fn lemma_link_roundtrip(page: Seq<u8>, off: int, v: u16)
    requires
        0 <= off,
        off + 1 < page.len(),
    ensures
        link_at(with_link(page, off, v), off) == v,
{
    let lo = (v & 0xFF) as u8;
    let hi = (v >> 8u16) as u8;
    assert(((lo as u16) | ((hi as u16) << 8u16)) as u16 == v) by (bit_vector)
        requires
            lo == (v & 0xFF) as u8,
            hi == (v >> 8u16) as u8,
    ;
}

fn write_link(page: &mut Vec<u8>, off: usize, v: u16)
    requires
        off + 1 < old(page).len(),
    ensures
        final(page)@ == with_link(old(page)@, off as int, v),
{
    page.set(off, (v & 0xFF) as u8);
    page.set(off + 1, (v >> 8u16) as u8);
}

fn read_link(page: &Vec<u8>, off: usize) -> (r: u16)
    requires
        off + 1 < page.len(),
    ensures
        r == link_at(page@, off as int),
{
    (page[off] as u16) | ((page[off + 1] as u16) << 8u16)
}

/// Set up `slab` for class `class_index` on `page`: capacity 4096 / size
/// objects, none taken, all chained in order 0, 1, ... into the free list.
pub fn init_slab_page(page: &mut Vec<u8>, class_index: usize, slab: &mut SlabPage)
    requires
        old(page).len() == PAGE_SIZE,
        class_index < SLAB_CLASS_COUNT,
    ensures
        final(page).len() == PAGE_SIZE,
        ({
            let size = class_size_of(class_index as int);
            let cap = PAGE_SIZE / size;
            &&& final(slab).active
            &&& final(slab).class_index == class_index
            &&& final(slab).in_use == 0
            &&& final(slab).capacity == cap
            &&& final(slab).free_head == 0
            &&& forall|i: int|
                0 <= i < cap ==> #[trigger] link_at(final(page)@, i * size) == if i + 1 < cap {
                    (i + 1) as u16
                } else {
                    FREE_LIST_END
                }
        }),
{
    let obj_size = class_size(class_index);
    let capacity = (PAGE_SIZE / obj_size) as u16;
    slab.active = true;
    slab.class_index = class_index as u8;
    slab.in_use = 0;
    slab.capacity = capacity;
    slab.free_head = 0;
    let mut i: u16 = 0;
    while i < capacity
        invariant
            page.len() == PAGE_SIZE,
            obj_size == class_size_of(class_index as int),
            capacity as int == PAGE_SIZE / obj_size,
            1 <= capacity <= 256,
            obj_size >= 16,
            i <= capacity,
            obj_size * capacity <= PAGE_SIZE,
            forall|j: int|
                0 <= j < i ==> #[trigger] link_at(page@, j * obj_size) == if j + 1 < capacity {
                    (j + 1) as u16
                } else {
                    FREE_LIST_END
                },
        decreases capacity - i,
    {
        let next: u16 = if i + 1 < capacity {
            i + 1
        } else {
            FREE_LIST_END
        };
        assert(i * obj_size + obj_size <= PAGE_SIZE) by (nonlinear_arith)
            requires
                i < capacity,
                obj_size * capacity <= PAGE_SIZE,
        ;
        let off = (i as usize) * obj_size;
        let ghost before = page@;
        write_link(page, off, next);
        proof {
            lemma_link_roundtrip(before, off as int, next);
            assert forall|j: int| 0 <= j < i + 1 implies #[trigger] link_at(page@, j * obj_size) == if j + 1
                < capacity {
                (j + 1) as u16
            } else {
                FREE_LIST_END
            } by {
                if j < i {
                    assert(j * obj_size + obj_size <= i * obj_size) by (nonlinear_arith)
                        requires
                            j < i,
                            obj_size > 0,
                    ;
                    assert(page@[j * obj_size] == before[j * obj_size]);
                    assert(page@[j * obj_size + 1] == before[j * obj_size + 1]);
                    assert(link_at(page@, j * obj_size) == link_at(before, j * obj_size));
                } else {
                    assert(j * obj_size == off);
                    assert(link_at(page@, off as int) == next);
                }
            }
        }
        i = i + 1;
    }
}

/// What `alloc_from_slab` returns for `slab` on `page` at `page_base`, and
/// the slab afterwards: the object at the head of the free list, the head
/// moved to its link, one more object counted (saturating); 0 and no change
/// when nothing is free.
pub open spec fn slab_alloc(page: Seq<u8>, page_base: u64, slab: SlabPage) -> (u64, SlabPage) {
    let size = class_size_of(slab.class_index as int);
    if !(slab.active && slab.free_head != FREE_LIST_END) || size == 0 {
        (0, slab)
    } else {
        let off = slab.free_head * size;
        (
            (page_base + off) as u64,
            SlabPage {
                free_head: link_at(page, off),
                in_use: if slab.in_use == u16::MAX { u16::MAX } else { (slab.in_use + 1) as u16 },
                ..slab
            },
        )
    }
}

/// The head of a slab's free list lies inside the page.
pub open spec fn free_head_in_page(slab: SlabPage) -> bool {
    slab.active && slab.free_head != FREE_LIST_END ==> slab.free_head * class_size_of(
        slab.class_index as int,
    ) + 2 <= PAGE_SIZE
}

/// Take an object from `slab` on `page` (at `page_base`); its address, or 0
/// when none is free.
pub fn alloc_from_slab(page: &Vec<u8>, page_base: u64, slab: &mut SlabPage) -> (r: u64)
    requires
        page.len() == PAGE_SIZE,
        free_head_in_page(*old(slab)),
        page_base + PAGE_SIZE <= u64::MAX,
    ensures
        (r, *final(slab)) == slab_alloc(page@, page_base, *old(slab)),
{
    if !slab.has_free_objects() {
        return 0;
    }
    let obj_size = class_size(slab.class_index as usize);
    if obj_size == 0 {
        return 0;
    }
    let index = slab.free_head;
    let off = (index as usize) * obj_size;
    let next = read_link(page, off);
    slab.free_head = next;
    slab.in_use = slab.in_use.saturating_add(1);
    page_base + off as u64
}

/// What `free_to_slab` answers for `ptr` on `slab` and `page` at
/// `page_base`, with the page and slab afterwards: a null pointer is
/// accepted and changes nothing; a pointer of an inactive slab, outside the
/// page, not at an object boundary or past the capacity is refused; else the
/// object is pushed on the free list (its link set to the old head) and one
/// object fewer is counted (saturating).
pub open spec fn slab_free(page: Seq<u8>, page_base: u64, slab: SlabPage, ptr: u64) -> (bool, Seq<u8>, SlabPage) {
    let size = class_size_of(slab.class_index as int);
    if ptr == 0 {
        (true, page, slab)
    } else if !slab.active || size == 0 || ptr < page_base || ptr >= page_base + PAGE_SIZE || (ptr
        - page_base) % (size as int) != 0 || (ptr - page_base) / (size as int) >= slab.capacity {
        (false, page, slab)
    } else {
        let off = ptr - page_base;
        (
            true,
            with_link(page, off, slab.free_head),
            SlabPage {
                free_head: (off / (size as int)) as u16,
                in_use: if slab.in_use == 0 { 0 } else { (slab.in_use - 1) as u16 },
                ..slab
            },
        )
    }
}

/// Give the object at `ptr` back to `slab` on `page` (at `page_base`);
/// whether it was accepted.
pub fn free_to_slab(page: &mut Vec<u8>, page_base: u64, slab: &mut SlabPage, ptr: u64) -> (r: bool)
    requires
        old(page).len() == PAGE_SIZE,
        page_base + PAGE_SIZE <= u64::MAX,
    ensures
        (r, final(page)@, *final(slab)) == slab_free(old(page)@, page_base, *old(slab), ptr),
        final(page).len() == PAGE_SIZE,
{
    if ptr == 0 {
        return true;
    }
    if !slab.active {
        return false;
    }
    let obj_size = class_size(slab.class_index as usize);
    if obj_size == 0 {
        return false;
    }
    let page_end = page_base + PAGE_SIZE as u64;
    if ptr < page_base || ptr >= page_end {
        return false;
    }
    let offset = ptr - page_base;
    if offset % (obj_size as u64) != 0 {
        return false;
    }
    let obj_index = offset / (obj_size as u64);
    if obj_index >= slab.capacity as u64 {
        return false;
    }
    proof {
        lemma_object_fits(offset as int, slab.class_index as int);
    }
    write_link(page, offset as usize, slab.free_head);
    slab.free_head = obj_index as u16;
    slab.in_use = slab.in_use.saturating_sub(1);
    true
}

/// Freeing an object and then allocating gives the same object back, and
/// the free list is as it was.
pub proof fn lemma_free_then_alloc(page: Seq<u8>, page_base: u64, slab: SlabPage, ptr: u64)
    requires
        page.len() == PAGE_SIZE,
        page_base + PAGE_SIZE <= u64::MAX,
        ptr != 0,
        slab_free(page, page_base, slab, ptr).0,
    ensures
        ({
            let (_, page1, slab1) = slab_free(page, page_base, slab, ptr);
            let (r, slab2) = slab_alloc(page1, page_base, slab1);
            &&& r == ptr
            &&& slab2.free_head == slab.free_head
        }),
{
    let size = class_size_of(slab.class_index as int);
    let off = ptr - page_base;
    let idx = off / (size as int);
    assert(idx * size == off) by (nonlinear_arith)
        requires
            size > 0,
            off % (size as int) == 0,
            idx == off / (size as int),
    ;
    lemma_object_fits(off, slab.class_index as int);
    lemma_link_roundtrip(page, off, slab.free_head);
}

} // verus!
