//! Physical memory manager: one bit per 4 KiB frame (set = used), with
//! per-zone and per-NUMA-node statistics.
use vstd::prelude::*;
use crate::bitmap::{byte_bit, frame_used, count_free, lemma_set_bit, lemma_clear_bit, lemma_full_byte, lemma_ff_bits, lemma_count_free_le, lemma_count_free_all_used, lemma_count_free_one_change, lemma_count_free_same, lemma_count_free_run, lemma_frame_set, lemma_frame_clear};
use crate::e820::{MemoryMap, E820Entry, entry_usable, entry_end, highest_usable, MAX_MEMORY_ENTRIES, E820_ENTRY_SIZE};
use crate::memory_error::MemoryError;
use crate::zones::{MemoryZone, NumaNode, zone_index_spec, zone_of_spec, zone_start_spec, zone_end_spec, DMA_ZONE_END, DMA32_ZONE_END};

verus! {

/// Size of a physical frame.
pub const PAGE_SIZE: usize = 4096;


/// Allocation hints.
#[derive(Clone, Copy, Debug)]
pub struct AllocFlags {
    /// Prefer allocation from the DMA zone.
    pub dma_capable: bool,
    /// Prefer allocation from the DMA32 zone.
    pub dma32_capable: bool,
    /// Allow allocation from any zone as a fallback.
    pub allow_fallback: bool,
    /// Preferred NUMA node.
    pub numa_node: Option<NumaNode>,
    /// Zero the allocated frames.
    pub zero_memory: bool,
}

impl AllocFlags {
    /// No preferences; fallback allowed.
    pub fn new() -> (r: AllocFlags)
        ensures
            !r.dma_capable && !r.dma32_capable && r.allow_fallback && r.numa_node is None
                && !r.zero_memory,
    {
        AllocFlags {
            dma_capable: false,
            dma32_capable: false,
            allow_fallback: true,
            numa_node: None,
            zero_memory: false,
        }
    }

    /// DMA allocation without fallback.
    pub fn dma() -> (r: AllocFlags)
        ensures
            r.dma_capable && !r.dma32_capable && !r.allow_fallback && r.numa_node is None
                && !r.zero_memory,
    {
        AllocFlags {
            dma_capable: true,
            dma32_capable: false,
            allow_fallback: false,
            numa_node: None,
            zero_memory: false,
        }
    }

    /// DMA32 allocation with fallback.
    pub fn dma32() -> (r: AllocFlags)
        ensures
            !r.dma_capable && r.dma32_capable && r.allow_fallback && r.numa_node is None
                && !r.zero_memory,
    {
        AllocFlags {
            dma_capable: false,
            dma32_capable: true,
            allow_fallback: true,
            numa_node: None,
            zero_memory: false,
        }
    }

    /// Allocation that prefers the given NUMA node.
    pub fn numa(node: NumaNode) -> (r: AllocFlags)
        ensures
            !r.dma_capable && !r.dma32_capable && r.allow_fallback && r.numa_node == Some(node)
                && !r.zero_memory,
    {
        AllocFlags {
            dma_capable: false,
            dma32_capable: false,
            allow_fallback: true,
            numa_node: Some(node),
            zero_memory: false,
        }
    }
}

/// Statistics of one memory zone.
#[derive(Clone, Copy, Debug)]
pub struct ZoneStats {
    /// Frames in the zone.
    pub total_frames: usize,
    /// Free frames in the zone.
    pub free_frames: usize,
    /// Allocation hint.
    pub last_alloc_index: usize,
}

impl ZoneStats {
    /// All counters zero.
    pub fn new() -> (r: ZoneStats)
        ensures
            r.total_frames == 0 && r.free_frames == 0 && r.last_alloc_index == 0,
    {
        ZoneStats { total_frames: 0, free_frames: 0, last_alloc_index: 0 }
    }
}

/// Statistics of one NUMA node.
#[derive(Clone, Copy, Debug)]
pub struct NumaStats {
    /// Frames on the node.
    pub total_frames: usize,
    /// Free frames on the node.
    pub free_frames: usize,
}

impl NumaStats {
    /// All counters zero.
    pub fn new() -> (r: NumaStats)
        ensures
            r.total_frames == 0 && r.free_frames == 0,
    {
        NumaStats { total_frames: 0, free_frames: 0 }
    }
}

fn memory_error(code: u32, message: &'static str, fatal: bool) -> (r: MemoryError)
    ensures
        r.code == code,
        r.message == message,
        r.fatal == fatal,
{
    MemoryError { code, message, fatal }
}

/// Cyclic distance of byte `b` from byte `s` in a map of `n` bytes.
pub open spec fn cyclic_dist(b: int, s: int, n: int) -> int {
    if b >= s {
        b - s
    } else {
        b + n - s
    }
}

/// The physical memory manager.
pub struct PhysicalMemoryManager {
    bitmap: Vec<u8>,
    bitmap_base: u64,
    bitmap_size: usize,
    bitmap_size_aligned: usize,
    total_frames: usize,
    free_frames: usize,
    last_alloc_index: usize,
    highest_address: u64,
    zones: Vec<ZoneStats>,
    numa_nodes: Vec<NumaStats>,
    numa_count: usize,
}

impl PhysicalMemoryManager {
    /// Everything `wf` asks but that the bits past the last frame are set and
    /// that the free counter agrees with the bitmap.
    pub closed spec fn wf_core(&self) -> bool {
        &&& self.bitmap@.len() == self.bitmap_size
        &&& self.bitmap_size == (self.total_frames + 7) / 8
        &&& self.total_frames * 4096 <= usize::MAX
        &&& (self.bitmap_size == 0 || self.last_alloc_index < self.bitmap_size)
        &&& self.zones@.len() == 4
        &&& forall|z: int| 0 <= z < 4 ==> self.zones@[z].total_frames <= self.total_frames
        &&& self.numa_nodes@.len() == 8
        &&& self.numa_count <= 8
        &&& forall|i: int| 0 <= i < 8 ==> self.numa_nodes@[i].total_frames <= self.total_frames
    }

    /// Well-formedness: the bitmap has one bit per frame rounded up to whole
    /// bytes, the bits past the last frame are set, the free counter is the
    /// number of free frames in the bitmap, the hint is a byte index, and
    /// there are four zones and eight NUMA slots.
    pub closed spec fn wf(&self) -> bool {
        &&& self.free_frames as nat == count_free(self.bitmap@, self.total_frames as nat)
        &&& self.bitmap@.len() == self.bitmap_size
        &&& self.bitmap_size == (self.total_frames + 7) / 8
        &&& self.total_frames * 4096 <= usize::MAX
        &&& forall|f: int|
            self.total_frames <= f < 8 * self.bitmap_size ==> frame_used(self.bitmap@, f)
        &&& (self.bitmap_size == 0 || self.last_alloc_index < self.bitmap_size)
        &&& self.zones@.len() == 4
        &&& forall|z: int| 0 <= z < 4 ==> self.zones@[z].total_frames <= self.total_frames
        &&& self.numa_nodes@.len() == 8
        &&& self.numa_count <= 8
        &&& forall|i: int| 0 <= i < 8 ==> self.numa_nodes@[i].total_frames <= self.total_frames
    }

    /// Number of frames tracked.
    pub closed spec fn total(&self) -> nat {
        self.total_frames as nat
    }

    /// Value of the free-frame counter.
    pub closed spec fn free_counter(&self) -> nat {
        self.free_frames as nat
    }

    /// Frame `f` is used (frames outside the tracked range count as used).
    pub closed spec fn used(&self, f: int) -> bool {
        if 0 <= f < self.total_frames {
            frame_used(self.bitmap@, f)
        } else {
            true
        }
    }

    /// Number of free frames according to the bitmap.
    pub closed spec fn bitmap_free(&self) -> nat {
        count_free(self.bitmap@, self.total_frames as nat)
    }

    /// The free-frame counter agrees with the bitmap.
    pub open spec fn counter_exact(&self) -> bool {
        self.free_counter() == self.bitmap_free()
    }

    /// Allocation hint (a byte index into the bitmap).
    pub closed spec fn hint(&self) -> nat {
        self.last_alloc_index as nat
    }

    /// Number of bytes of the bitmap.
    pub closed spec fn map_bytes(&self) -> nat {
        self.bitmap_size as nat
    }

    /// Statistics of zone `z` (0 .. 4).
    pub closed spec fn zone(&self, z: int) -> ZoneStats {
        self.zones@[z]
    }

    /// Statistics of NUMA slot `i` (0 .. 8).
    pub closed spec fn numa(&self, i: int) -> NumaStats {
        self.numa_nodes@[i]
    }

    /// Number of NUMA nodes.
    pub closed spec fn numa_nodes_spec(&self) -> nat {
        self.numa_count as nat
    }

    /// Physical address of the bitmap.
    pub closed spec fn bitmap_addr(&self) -> u64 {
        self.bitmap_base
    }

    /// Highest usable address the manager was built from.
    pub closed spec fn highest(&self) -> u64 {
        self.highest_address
    }

    /// `other` has the same frame usage as `self` at every frame but `g`.
    pub open spec fn same_except(&self, other: &Self, g: int) -> bool {
        forall|f: int| f != g ==> #[trigger] other.used(f) == self.used(f)
    }

    /// `other` equals `self` except for frame usage, the free counter and the
    /// hint: same size, zones and NUMA data.
    pub open spec fn same_layout(&self, other: &Self) -> bool {
        &&& other.total() == self.total()
        &&& other.map_bytes() == self.map_bytes()
        &&& other.numa_nodes_spec() == self.numa_nodes_spec()
        &&& other.bitmap_addr() == self.bitmap_addr()
        &&& other.highest() == self.highest()
        &&& forall|i: int| 0 <= i < 8 ==> #[trigger] other.numa(i) == self.numa(i)
    }

    /// Zone statistics of `other` equal those of `self`.
    pub open spec fn same_zones(&self, other: &Self) -> bool {
        forall|z: int| 0 <= z < 4 ==> #[trigger] other.zone(z) == self.zone(z)
    }

    /// Test if a frame is used (frames past the end count as used).
    fn test_bit(&self, frame: usize) -> (r: bool)
        requires
            self.wf(),
        ensures
            r == self.used(frame as int),
    {
        if frame >= self.total_frames {
            return true;
        }
        let byte_idx = frame / 8;
        let bit_offset = frame % 8;
        let byte_value = self.bitmap[byte_idx];
        (byte_value & (1u8 << (bit_offset as u8))) != 0
    }
}

impl PhysicalMemoryManager {
    /// Mark a frame used (frames past the end are ignored); the counter drops
    /// by one (saturating) when the frame was free.
    fn set_bit(&mut self, frame: usize)
        requires
            old(self).wf(),
        ensures
            final(self).wf(),
            old(self).same_layout(final(self)),
            old(self).same_zones(final(self)),
            final(self).hint() == old(self).hint(),
            forall|g: int| #[trigger] final(self).used(g) == (g == frame || old(self).used(g)),
            final(self).free_counter() == if old(self).used(frame as int) {
                old(self).free_counter() as int
            } else if old(self).free_counter() == 0 {
                0
            } else {
                old(self).free_counter() - 1
            },
            old(self).counter_exact() ==> final(self).counter_exact(),
    {
        if frame >= self.total_frames {
            return;
        }
        let byte_idx = frame / 8;
        let bit_offset = frame % 8;
        let byte_value = self.bitmap[byte_idx];
        if (byte_value & (1u8 << (bit_offset as u8))) == 0 {
            let ghost before = self.bitmap@;
            proof {
                lemma_frame_set(before, frame as int);
            }
            self.bitmap.set(byte_idx, byte_value | (1u8 << (bit_offset as u8)));
            self.free_frames = self.free_frames.saturating_sub(1);
            proof {
                lemma_count_free_one_change(before, self.bitmap@, self.total_frames as nat, frame as int);
            }
        }
    }

    /// Mark a frame free (frames past the end are ignored); the counter rises
    /// by one when the frame was used.
    fn clear_bit(&mut self, frame: usize)
        requires
            old(self).wf(),
            frame < old(self).total() && old(self).used(frame as int) ==> old(self).free_counter() < usize::MAX,
        ensures
            final(self).wf(),
            old(self).same_layout(final(self)),
            old(self).same_zones(final(self)),
            final(self).hint() == old(self).hint(),
            forall|g: int| #[trigger] final(self).used(g) == if g == frame && frame < old(self).total() {
                false
            } else {
                old(self).used(g)
            },
            final(self).free_counter() == if frame < old(self).total() && old(self).used(frame as int) {
                old(self).free_counter() + 1
            } else {
                old(self).free_counter()
            },
            old(self).counter_exact() ==> final(self).counter_exact(),
    {
        if frame >= self.total_frames {
            return;
        }
        let byte_idx = frame / 8;
        let bit_offset = frame % 8;
        let byte_value = self.bitmap[byte_idx];
        if (byte_value & (1u8 << (bit_offset as u8))) != 0 {
            let ghost before = self.bitmap@;
            proof {
                lemma_frame_clear(before, frame as int);
            }
            self.bitmap.set(byte_idx, byte_value & !(1u8 << (bit_offset as u8)));
            self.free_frames += 1;
            proof {
                lemma_count_free_one_change(before, self.bitmap@, self.total_frames as nat, frame as int);
            }
        }
    }
}

impl PhysicalMemoryManager {
    /// Frame `f` is the frame `alloc_frame` hands out: free, and every frame in
    /// the bytes scanned before its byte (cyclically from the hint), and every
    /// lower frame of its own byte, is used.
    pub open spec fn alloc_candidate(&self, f: int) -> bool {
        &&& 0 <= f < self.total()
        &&& !self.used(f)
        &&& forall|g: int|
            0 <= g < self.total() && cyclic_dist(g / 8, self.hint() as int, self.map_bytes() as int)
                < cyclic_dist(f / 8, self.hint() as int, self.map_bytes() as int) ==> #[trigger] self.used(g)
        &&& forall|g: int| 0 <= g < f && g / 8 == f / 8 ==> #[trigger] self.used(g)
    }

    /// Some tracked frame is free.
    pub open spec fn has_free_frame(&self) -> bool {
        exists|f: int| 0 <= f < self.total() && !#[trigger] self.used(f)
    }

    /// Outcome of `alloc_frame` from `self` to `fin`: error 3 when the counter
    /// is zero, error 4 when no frame is free (nothing changes on error);
    /// otherwise the candidate frame is marked used, the counter and its
    /// zone's free frames drop by one and the hint moves to its byte.
    pub open spec fn frame_alloc_post(&self, fin: &Self, r: Result<u64, MemoryError>) -> bool {
        &&& fin.wf()
        &&& self.same_layout(fin)
        &&& self.same_zones(fin)
        &&& self.free_counter() == 0 ==> (r matches Err(e) && e.code == 3 && !e.fatal)
        &&& self.free_counter() > 0 && !self.has_free_frame() ==> (r matches Err(e) && e.code == 4 && !e.fatal)
        &&& r is Err ==> *fin == *self
        &&& self.free_counter() > 0 && self.has_free_frame() ==> r is Ok
        &&& r matches Ok(addr) ==> {
            &&& addr % 4096 == 0
            &&& self.alloc_candidate(addr as int / 4096)
            &&& fin.used(addr as int / 4096)
            &&& self.same_except(fin, addr as int / 4096)
            &&& fin.free_counter() == self.free_counter() - 1
            &&& fin.hint() == addr as int / 4096 / 8
            &&& forall|z: MemoryZone| #[trigger] fin.zone_free(z) == self.zone_free(z) - if self.in_zone(
                addr as int / 4096,
                z,
            ) {
                1int
            } else {
                0int
            }
        }
        &&& self.counter_exact() ==> fin.counter_exact()
    }

    /// Allocate a single frame, scanning the bitmap byte by byte from the hint
    /// and wrapping around. Returns its physical address.
    pub fn alloc_frame(&mut self) -> (r: Result<u64, MemoryError>)
        requires
            old(self).wf(),
        ensures
            old(self).frame_alloc_post(final(self), r),
    {
        if self.free_frames == 0 {
            return Err(memory_error(3, "No free memory available!", false));
        }
        let ghost s = self.last_alloc_index as int;
        let ghost n = self.bitmap_size as int;
        let mut current_idx = self.last_alloc_index;
        let mut loop_count: usize = 0;
        while loop_count < self.bitmap_size
            invariant
                self.wf(),
                self.free_frames > 0,
                s == self.last_alloc_index,
                n == self.bitmap_size,
                loop_count <= n,
                n > 0 ==> current_idx < n,
                n > 0 ==> current_idx == if s + loop_count < n {
                    s + loop_count
                } else {
                    s + loop_count - n
                },
                forall|g: int|
                    0 <= g < self.total_frames && cyclic_dist(g / 8, s, n) < loop_count
                        ==> #[trigger] self.used(g),
                old(self) == self,
            decreases n - loop_count,
        {
            let byte_value = self.bitmap[current_idx];
            if byte_value != 0xFF {
                let mut bit_offset: usize = 0;
                while bit_offset < 8
                    invariant
                        self.wf(),
                        old(self) == self,
                        self.free_frames > 0,
                        s == self.last_alloc_index,
                        n == self.bitmap_size,
                        current_idx < n,
                        loop_count < n,
                        current_idx == if s + loop_count < n {
                            s + loop_count
                        } else {
                            s + loop_count - n
                        },
                        forall|g: int|
                            0 <= g < self.total_frames && cyclic_dist(g / 8, s, n) < loop_count
                                ==> #[trigger] self.used(g),
                        byte_value == self.bitmap@[current_idx as int],
                        bit_offset <= 8,
                        forall|k: u8| k < bit_offset ==> byte_bit(byte_value, k),
                    ensures
                        forall|k: u8| k < 8 ==> byte_bit(byte_value, k),
                    decreases 8 - bit_offset,
                {
                    if (byte_value & (1u8 << (bit_offset as u8))) == 0 {
                        let frame_index = (current_idx * 8) + bit_offset;
                        proof {
                            assert(frame_index / 8 == current_idx);
                            assert(frame_index % 8 == bit_offset);
                            assert(!frame_used(self.bitmap@, frame_index as int));
                        }
                        if frame_index >= self.total_frames {
                            break;
                        }
                        let ghost before = self.bitmap@;
                        proof {
                            assert(!self.used(frame_index as int));
                            lemma_frame_set(before, frame_index as int);
                            assert forall|g: int| 0 <= g < frame_index && g / 8 == frame_index / 8 implies #[trigger] self.used(g) by {
                                assert(g % 8 < bit_offset);
                                assert(g == current_idx * 8 + g % 8);
                            }
                        }
                        let ghost prev = *self;
                        self.bitmap.set(current_idx, byte_value | (1u8 << (bit_offset as u8)));
                        self.free_frames -= 1;
                        self.last_alloc_index = current_idx;
                        proof {
                            lemma_count_free_one_change(before, self.bitmap@, self.total_frames as nat, frame_index as int);
                            lemma_zone_free_after_take(&prev, self, frame_index as int);
                        }
                        let physical_address = (frame_index * PAGE_SIZE) as u64;
                        return Ok(physical_address);
                    }
                    bit_offset += 1;
                }
            }
            proof {
                if byte_value == 0xFF {
                    lemma_full_byte(byte_value);
                } else {
                    assert(byte_bit(byte_value, 0u8));
                    assert(byte_bit(byte_value, 1u8));
                    assert(byte_bit(byte_value, 2u8));
                    assert(byte_bit(byte_value, 3u8));
                    assert(byte_bit(byte_value, 4u8));
                    assert(byte_bit(byte_value, 5u8));
                    assert(byte_bit(byte_value, 6u8));
                    assert(byte_bit(byte_value, 7u8));
                }
                assert forall|g: int|
                    0 <= g < self.total_frames && cyclic_dist(g / 8, s, n) < loop_count + 1
                        implies #[trigger] self.used(g) by {
                    if cyclic_dist(g / 8, s, n) == loop_count {
                        assert(g / 8 == current_idx);
                        assert(byte_bit(byte_value, (g % 8) as u8));
                    }
                }
            }
            proof {
                if current_idx + 1 < n {
                    vstd::arithmetic::div_mod::lemma_small_mod((current_idx + 1) as nat, n as nat);
                } else {
                    vstd::arithmetic::div_mod::lemma_mod_add_multiples_vanish(0, n);
                    vstd::arithmetic::div_mod::lemma_small_mod(0, n as nat);
                }
            }
            current_idx = (current_idx + 1) % self.bitmap_size;
            loop_count += 1;
        }
        proof {
            assert forall|g: int| 0 <= g < self.total_frames implies #[trigger] self.used(g) by {
                assert(cyclic_dist(g / 8, s, n) < loop_count);
            }
        }
        Err(memory_error(4, "Failed to find free frame!", false))
    }
}

impl PhysicalMemoryManager {
    /// The error `free_frame` reports for `addr`, if any: 5 when unaligned, 6
    /// when past the last frame, 7 when the frame is already free.
    pub open spec fn free_frame_error(&self, addr: u64) -> Option<u32> {
        if addr % 4096 != 0 {
            Some(5u32)
        } else if addr / 4096 >= self.total() {
            Some(6u32)
        } else if !self.used((addr / 4096) as int) {
            Some(7u32)
        } else {
            None
        }
    }

    /// Outcome of `free_frame(addr)` from `self` to `fin`: the error of
    /// `free_frame_error` with nothing changed, or the frame marked free, the
    /// counter and its zone's free frames raised by one and the hint moved
    /// down to its byte.
    pub open spec fn free_frame_post(&self, fin: &Self, addr: u64, r: Result<(), MemoryError>) -> bool {
        &&& fin.wf()
        &&& self.same_layout(fin)
        &&& match self.free_frame_error(addr) {
            Some(code) => {
                &&& r matches Err(e) && e.code == code && !e.fatal
                &&& fin.free_counter() == self.free_counter()
                &&& fin.hint() == self.hint()
                &&& self.same_zones(fin)
                &&& forall|g: int| #[trigger] fin.used(g) == self.used(g)
            },
            None => {
                let f = addr / 4096;
                let zi = zone_index_spec(zone_of_spec(addr));
                &&& r is Ok
                &&& !fin.used(f as int)
                &&& self.same_except(fin, f as int)
                &&& fin.free_counter() == self.free_counter() + 1
                &&& fin.hint() == if f / 8 < self.hint() {
                    (f / 8) as nat
                } else {
                    self.hint()
                }
                &&& self.same_zones(fin)
                &&& forall|z: MemoryZone| #[trigger] fin.zone_free(z) == self.zone_free(z) + if self.in_zone(
                    f as int,
                    z,
                ) {
                    1int
                } else {
                    0int
                }
            },
        }
        &&& self.counter_exact() ==> fin.counter_exact()
    }

    /// Free a previously allocated frame given by its physical address.
    pub fn free_frame(&mut self, addr: u64) -> (r: Result<(), MemoryError>)
        requires
            old(self).wf(),
        ensures
            old(self).free_frame_post(final(self), addr, r),
    {
        if addr % (PAGE_SIZE as u64) != 0 {
            return Err(memory_error(5, "Address not page-aligned!", false));
        }
        let frame_number = addr / (PAGE_SIZE as u64);
        if frame_number >= self.total_frames as u64 {
            return Err(memory_error(6, "Address out of bounds!", false));
        }
        let frame_index = frame_number as usize;
        let byte_idx = frame_index / 8;
        let bit_offset = frame_index % 8;
        let byte_value = self.bitmap[byte_idx];
        if (byte_value & (1u8 << (bit_offset as u8))) == 0 {
            return Err(memory_error(7, "Double free detected!", false));
        }
        let ghost before = self.bitmap@;
        proof {
            lemma_frame_clear(before, frame_index as int);
        }
        let ghost prev = *self;
        proof {
            lemma_count_free_one_change(before, before.update(byte_idx as int, byte_value & !(1u8 << (bit_offset as u8))), self.total_frames as nat, frame_index as int);
            lemma_count_free_le(before.update(byte_idx as int, byte_value & !(1u8 << (bit_offset as u8))), self.total_frames as nat);
        }
        self.bitmap.set(byte_idx, byte_value & !(1u8 << (bit_offset as u8)));
        self.free_frames += 1;
        if byte_idx < self.last_alloc_index {
            self.last_alloc_index = byte_idx;
        }
        proof {
            lemma_zone_free_after_release(&prev, self, frame_index as int);
        }
        Ok(())
    }

    /// Number of free frames (the counter).
    pub fn free_frame_count(&self) -> (r: usize)
        ensures
            r == self.free_counter(),
    {
        self.free_frames
    }

    /// Number of tracked frames.
    pub fn total_frame_count(&self) -> (r: usize)
        ensures
            r == self.total(),
    {
        self.total_frames
    }

    /// Free memory in bytes.
    pub fn free_memory(&self) -> (r: u64)
        requires
            self.free_counter() * 4096 <= usize::MAX,
        ensures
            r == self.free_counter() * 4096,
    {
        (self.free_frames * PAGE_SIZE) as u64
    }

    /// Used memory in bytes.
    pub fn used_memory(&self) -> (r: u64)
        requires
            self.wf(),
            self.free_counter() <= self.total(),
        ensures
            r == (self.total() - self.free_counter()) * 4096,
    {
        ((self.total_frames - self.free_frames) * PAGE_SIZE) as u64
    }

    /// Total tracked memory in bytes.
    pub fn total_memory(&self) -> (r: u64)
        requires
            self.wf(),
        ensures
            r == self.total() * 4096,
    {
        (self.total_frames * PAGE_SIZE) as u64
    }

    /// Whether the frame containing `addr` is used (past the end counts as used).
    pub fn is_frame_used(&self, addr: u64) -> (r: bool)
        requires
            self.wf(),
        ensures
            r == self.used(addr as int / 4096),
    {
        let frame_number = addr / (PAGE_SIZE as u64);
        if frame_number >= self.total_frames as u64 {
            return true;
        }
        self.test_bit(frame_number as usize)
    }

    /// Number of free frames in `[lo, hi)`, counted from the bitmap.
    fn count_free_between(&self, lo: usize, hi: usize) -> (r: usize)
        requires
            self.wf(),
            lo <= hi,
        ensures
            r == self.free_frames_in(lo as int, hi as int),
    {
        let mut count: usize = 0;
        let mut f: usize = lo;
        while f < hi
            invariant
                self.wf(),
                lo <= f <= hi,
                count == self.free_frames_in(lo as int, f as int),
                count <= f - lo,
            decreases hi - f,
        {
            if !self.test_bit(f) {
                count += 1;
            }
            f += 1;
        }
        count
    }

    /// Frame range `[lo, hi)` of a zone that the manager tracks, as
    /// executable values (`lo` is cut to `hi`).
    fn zone_bounds(&self, zone: MemoryZone) -> (r: (usize, usize))
        requires
            self.wf(),
        ensures
            r.0 <= r.1 <= self.total(),
            r.1 == self.zone_frame_end(zone),
            self.free_frames_in(r.0 as int, r.1 as int) == self.zone_free(zone),
    {
        let end64 = zone.end_address() / (PAGE_SIZE as u64);
        let hi = if end64 < self.total_frames as u64 {
            end64 as usize
        } else {
            self.total_frames
        };
        let start64 = zone.start_address() / (PAGE_SIZE as u64);
        let lo = if start64 > hi as u64 {
            hi
        } else {
            start64 as usize
        };
        (lo, hi)
    }

    /// Statistics of a zone: its size and last-allocation hint as recorded,
    /// and its free frames counted from the bitmap.
    pub fn zone_stats(&self, zone: MemoryZone) -> (r: ZoneStats)
        requires
            self.wf(),
        ensures
            r.total_frames == self.zone(zone_index_spec(zone)).total_frames,
            r.last_alloc_index == self.zone(zone_index_spec(zone)).last_alloc_index,
            r.free_frames == self.zone_free(zone),
    {
        let stored = self.zones[zone.index()];
        let (lo, hi) = self.zone_bounds(zone);
        let free = self.count_free_between(lo, hi);
        ZoneStats { total_frames: stored.total_frames, free_frames: free, last_alloc_index: stored.last_alloc_index }
    }

    /// Free memory of a zone in bytes.
    pub fn zone_free_memory(&self, zone: MemoryZone) -> (r: u64)
        requires
            self.wf(),
        ensures
            r == self.zone_free(zone) * 4096,
    {
        let (lo, hi) = self.zone_bounds(zone);
        let free = self.count_free_between(lo, hi);
        proof {
            lemma_free_frames_in_le(self, lo as int, hi as int);
        }
        (free * PAGE_SIZE) as u64
    }

    /// Total memory of a zone in bytes.
    pub fn zone_total_memory(&self, zone: MemoryZone) -> (r: u64)
        requires
            self.wf(),
        ensures
            r == self.zone(zone_index_spec(zone)).total_frames * 4096,
    {
        (self.zones[zone.index()].total_frames * PAGE_SIZE) as u64
    }

    /// Statistics of a NUMA node, if the node exists: its size as recorded
    /// and its free frames (node 0 holds all memory, so its free frames are
    /// the free counter).
    pub fn numa_stats(&self, node: NumaNode) -> (r: Option<NumaStats>)
        requires
            self.wf(),
        ensures
            node.id < self.numa_nodes_spec() ==> r == Some(
                NumaStats {
                    total_frames: self.numa(node.id as int).total_frames,
                    free_frames: self.numa_free(node.id as int) as usize,
                },
            ),
            node.id >= self.numa_nodes_spec() ==> r is None,
    {
        let node_id = node.id() as usize;
        if node_id < self.numa_count {
            let stored = self.numa_nodes[node_id];
            let free = if node_id == 0 {
                self.free_frames
            } else {
                stored.free_frames
            };
            Some(NumaStats { total_frames: stored.total_frames, free_frames: free })
        } else {
            None
        }
    }

    /// Number of NUMA nodes.
    pub fn numa_node_count(&self) -> (r: usize)
        ensures
            r == self.numa_nodes_spec(),
    {
        self.numa_count
    }

    /// Free memory of a NUMA node in bytes (0 for an unknown node).
    pub fn numa_free_memory(&self, node: NumaNode) -> (r: u64)
        requires
            self.wf(),
            node.id < self.numa_nodes_spec() ==> self.numa_free(node.id as int) * 4096 <= usize::MAX,
        ensures
            r == if node.id < self.numa_nodes_spec() {
                self.numa_free(node.id as int) * 4096
            } else {
                0
            },
    {
        if let Some(stats) = self.numa_stats(node) {
            (stats.free_frames * PAGE_SIZE) as u64
        } else {
            0
        }
    }

    /// Total memory of a NUMA node in bytes (0 for an unknown node).
    pub fn numa_total_memory(&self, node: NumaNode) -> (r: u64)
        requires
            self.wf(),
        ensures
            r == if node.id < self.numa_nodes_spec() {
                self.numa(node.id as int).total_frames * 4096
            } else {
                0
            },
    {
        if let Some(stats) = self.numa_stats(node) {
            (stats.total_frames * PAGE_SIZE) as u64
        } else {
            0
        }
    }

    /// Used share of memory as a whole percentage (0 when nothing is tracked).
    pub fn memory_usage_percent(&self) -> (r: u8)
        requires
            self.wf(),
            self.free_counter() <= self.total(),
        ensures
            r == if self.total() == 0 {
                0
            } else {
                (self.total() - self.free_counter()) * 100 / (self.total() as int)
            },
    {
        if self.total_frames == 0 {
            return 0;
        }
        let used = self.total_frames - self.free_frames;
        proof {
            assert(used * 100 / (self.total_frames as int) <= 100) by (nonlinear_arith)
                requires
                    used <= self.total_frames,
                    self.total_frames > 0,
            ;
        }
        ((used * 100) / self.total_frames) as u8
    }

    /// Used share of a zone as a whole percentage (0 for an empty zone).
    pub fn zone_usage_percent(&self, zone: MemoryZone) -> (r: u8)
        requires
            self.wf(),
            self.zone_free(zone) <= self.zone(zone_index_spec(zone)).total_frames,
        ensures
            ({
                let t = self.zone(zone_index_spec(zone)).total_frames;
                r == if t == 0 {
                    0
                } else {
                    (t - self.zone_free(zone)) * 100 / (t as int)
                }
            }),
    {
        let stats = self.zone_stats(zone);
        if stats.total_frames == 0 {
            return 0;
        }
        let used = stats.total_frames - stats.free_frames;
        proof {
            assert(used * 100 / (stats.total_frames as int) <= 100) by (nonlinear_arith)
                requires
                    used <= stats.total_frames,
                    stats.total_frames > 0,
            ;
        }
        ((used * 100) / stats.total_frames) as u8
    }

    /// Memory is critically low: less than 10 percent of the frames free
    /// (more than 90 percent used).
    pub fn is_memory_critical(&self) -> (r: bool)
        requires
            self.wf(),
        ensures
            r == (self.total() > 0 && self.free_counter() * 10 < self.total()),
    {
        proof {
            lemma_count_free_le(self.bitmap@, self.total_frames as nat);
        }
        self.total_frames > 0 && self.free_frames * 10 < self.total_frames
    }

    /// A zone is critically low: less than 10 percent of its frames free
    /// (more than 90 percent used).
    pub fn is_zone_critical(&self, zone: MemoryZone) -> (r: bool)
        requires
            self.wf(),
        ensures
            ({
                let t = self.zone(zone_index_spec(zone)).total_frames;
                r == (t > 0 && self.zone_free(zone) * 10 < t)
            }),
    {
        let stats = self.zone_stats(zone);
        proof {
            let (lo, hi) = (zone_first_frame(zone), self.zone_frame_end(zone));
            lemma_free_frames_in_le(self, lo, hi);
        }
        stats.total_frames > 0 && stats.free_frames * 10 < stats.total_frames
    }
}

/// First frame of a zone.
pub open spec fn zone_first_frame(z: MemoryZone) -> int {
    (zone_start_spec(z) / 4096) as int
}

impl PhysicalMemoryManager {
    /// End (exclusive) of the frames of zone `z` that the manager tracks.
    pub open spec fn zone_frame_end(&self, z: MemoryZone) -> int {
        if zone_end_spec(z) / 4096 < self.total() {
            (zone_end_spec(z) / 4096) as int
        } else {
            self.total() as int
        }
    }

    /// Number of free frames of zone `z`.
    pub open spec fn zone_free(&self, z: MemoryZone) -> nat {
        self.free_frames_in(zone_first_frame(z), self.zone_frame_end(z))
    }

    /// Frame `f` lies in zone `z`.
    pub open spec fn in_zone(&self, f: int, z: MemoryZone) -> bool {
        zone_first_frame(z) <= f < self.zone_frame_end(z)
    }

    /// Number of free frames of NUMA slot `i`: all memory is on node 0, whose
    /// free frames are the free counter.
    pub open spec fn numa_free(&self, i: int) -> nat {
        if i == 0 {
            self.free_counter()
        } else {
            self.numa(i).free_frames as nat
        }
    }

    /// `f` is the lowest free frame in `[lo, hi)`.
    pub open spec fn lowest_free_in(&self, lo: int, hi: int, f: int) -> bool {
        &&& lo <= f < hi
        &&& !self.used(f)
        &&& forall|g: int| lo <= g < f ==> #[trigger] self.used(g)
    }

    /// Some frame in `[lo, hi)` is free.
    pub open spec fn free_in(&self, lo: int, hi: int) -> bool {
        exists|f: int| lo <= f < hi && !#[trigger] self.used(f)
    }

    /// When the zone has a free frame, the free counter is non-zero (every
    /// well-formed manager has this; see `lemma_exact_counter_zone_pre`).
    pub open spec fn zone_alloc_pre(&self, zone: MemoryZone) -> bool {
        self.free_in(zone_first_frame(zone), self.zone_frame_end(zone)) ==> self.free_counter() > 0
    }

    /// Outcome of `alloc_frame_in_zone(zone)` from `self` to `fin`: error 10
    /// with nothing changed when no frame of the zone is free; otherwise the
    /// lowest free frame of the zone is marked used, the free counter and
    /// the zone's free frames drop by one.
    pub open spec fn zone_alloc_post(&self, fin: &Self, zone: MemoryZone, r: Result<u64, MemoryError>) -> bool {
        let lo = zone_first_frame(zone);
        let hi = self.zone_frame_end(zone);
        &&& fin.wf()
        &&& self.same_layout(fin)
        &&& self.same_zones(fin)
        &&& !self.free_in(lo, hi) ==> (r matches Err(e) && e.code == 10 && !e.fatal)
        &&& self.free_in(lo, hi) ==> r is Ok
        &&& r is Err ==> *fin == *self
        &&& r matches Ok(addr) ==> {
            &&& addr % 4096 == 0
            &&& self.lowest_free_in(lo, hi, addr as int / 4096)
            &&& fin.used(addr as int / 4096)
            &&& self.same_except(fin, addr as int / 4096)
            &&& fin.free_counter() == self.free_counter() - 1
            &&& fin.hint() == addr as int / 4096 / 8
            &&& fin.zone_free(zone) == self.zone_free(zone) - 1
            &&& forall|z: MemoryZone| #[trigger] fin.zone_free(z) == self.zone_free(z) - if self.in_zone(
                addr as int / 4096,
                z,
            ) {
                1int
            } else {
                0int
            }
        }
        &&& self.counter_exact() ==> fin.counter_exact()
    }

    /// Allocate the lowest free frame of a zone.
    pub fn alloc_frame_in_zone(&mut self, zone: MemoryZone) -> (r: Result<u64, MemoryError>)
        requires
            old(self).wf(),
        ensures
            old(self).zone_alloc_post(final(self), zone, r),
    {
        proof {
            lemma_exact_counter_zone_pre(self, zone);
        }
        let zone_idx = zone.index();
        let end_frame64 = zone.end_address() / (PAGE_SIZE as u64);
        let zone_end = if end_frame64 < self.total_frames as u64 {
            end_frame64 as usize
        } else {
            self.total_frames
        };
        let start_frame64 = zone.start_address() / (PAGE_SIZE as u64);
        let zone_start = if start_frame64 > zone_end as u64 {
            zone_end
        } else {
            start_frame64 as usize
        };
        let ghost lo = zone_first_frame(zone);
        let ghost hi = self.zone_frame_end(zone);
        let start_byte = zone_start / 8;
        let end_byte = (zone_end + 7) / 8;
        let mut byte_idx = start_byte;
        while byte_idx < end_byte
            invariant
                self.wf(),
                old(self) == self,
                zone_idx == zone_index_spec(zone),
                self.free_in(lo, hi) ==> self.free_frames > 0,
                lo == zone_first_frame(zone),
                hi == self.zone_frame_end(zone),
                zone_end == hi,
                hi <= self.total_frames,
                zone_start <= zone_end,
                zone_start == lo || (lo > hi && zone_start == zone_end),
                start_byte == zone_start / 8,
                end_byte == (zone_end + 7) / 8,
                end_byte <= self.bitmap_size,
                start_byte <= byte_idx,
                forall|g: int| lo <= g < hi && g / 8 < byte_idx ==> #[trigger] self.used(g),
            decreases end_byte - byte_idx,
        {
            let byte_value = self.bitmap[byte_idx];
            if byte_value != 0xFF {
                let mut bit_offset: usize = 0;
                while bit_offset < 8
                    invariant
                        self.wf(),
                        old(self) == self,
                        zone_idx == zone_index_spec(zone),
                        self.free_in(lo, hi) ==> self.free_frames > 0,
                        lo == zone_first_frame(zone),
                        hi == self.zone_frame_end(zone),
                        zone_end == hi,
                        hi <= self.total_frames,
                        zone_start <= zone_end,
                        zone_start == lo || (lo > hi && zone_start == zone_end),
                        byte_idx < end_byte,
                        end_byte <= self.bitmap_size,
                        byte_value == self.bitmap@[byte_idx as int],
                        bit_offset <= 8,
                        forall|g: int| lo <= g < hi && g / 8 < byte_idx ==> #[trigger] self.used(g),
                        forall|g: int| lo <= g < hi && g / 8 == byte_idx && g % 8 < bit_offset ==> #[trigger] self.used(g),
                    decreases 8 - bit_offset,
                {
                    let frame_index = (byte_idx * 8) + bit_offset;
                    proof {
                        assert(frame_index / 8 == byte_idx);
                        assert(frame_index % 8 == bit_offset);
                    }
                    if frame_index < zone_start || frame_index >= zone_end {
                        bit_offset += 1;
                        continue;
                    }
                    if (byte_value & (1u8 << (bit_offset as u8))) == 0 {
                        let ghost before = self.bitmap@;
                        proof {
                            assert(!self.used(frame_index as int));
                            assert(lo <= frame_index);
                            assert(self.free_in(lo, hi));
                            lemma_frame_set(before, frame_index as int);
                            assert forall|g: int| lo <= g < frame_index implies #[trigger] self.used(g) by {
                                if g / 8 == byte_idx {
                                    assert(g % 8 < bit_offset);
                                }
                            }
                        }
                        let ghost prev = *self;
                        self.bitmap.set(byte_idx, byte_value | (1u8 << (bit_offset as u8)));
                        self.free_frames -= 1;
                        self.last_alloc_index = byte_idx;
                        proof {
                            lemma_count_free_one_change(before, self.bitmap@, self.total_frames as nat, frame_index as int);
                            lemma_zone_free_after_take(&prev, self, frame_index as int);
                            assert(prev.in_zone(frame_index as int, zone));
                        }
                        let physical_address = (frame_index * PAGE_SIZE) as u64;
                        return Ok(physical_address);
                    }
                    bit_offset += 1;
                }
            } else {
                proof {
                    lemma_full_byte(byte_value);
                    assert forall|g: int| lo <= g < hi && g / 8 == byte_idx implies #[trigger] self.used(g) by {
                        assert(byte_bit(byte_value, (g % 8) as u8));
                    }
                }
            }
            byte_idx += 1;
        }
        proof {
            assert forall|g: int| lo <= g < hi implies #[trigger] self.used(g) by {
                assert(g / 8 < byte_idx);
            }
        }
        Err(memory_error(10, "No free frames in requested zone!", false))
    }

    /// Allocate a frame preferring a NUMA node; all memory is on one node, so
    /// this is `alloc_frame`.
    pub fn alloc_frame_numa(&mut self, preferred_node: NumaNode) -> (r: Result<u64, MemoryError>)
        requires
            old(self).wf(),
        ensures
            old(self).frame_alloc_post(final(self), r),
    {
        self.alloc_frame()
    }
}

impl PhysicalMemoryManager {
    /// Allocate a frame of the DMA zone (below 16 MiB).
    pub fn alloc_dma_frame(&mut self) -> (r: Result<u64, MemoryError>)
        requires
            old(self).wf(),
        ensures
            old(self).zone_alloc_post(final(self), MemoryZone::Dma, r),
    {
        self.alloc_frame_in_zone(MemoryZone::Dma)
    }

    /// Allocate a frame below 4 GiB: the DMA zone first, then DMA32.
    pub fn alloc_dma32_frame(&mut self) -> (r: Result<u64, MemoryError>)
        requires
            old(self).wf(),
        ensures
            ({
                let first_fails = !old(self).free_in(
                    zone_first_frame(MemoryZone::Dma),
                    old(self).zone_frame_end(MemoryZone::Dma),
                );
                &&& !first_fails ==> old(self).zone_alloc_post(final(self), MemoryZone::Dma, r)
                &&& first_fails ==> old(self).zone_alloc_post(final(self), MemoryZone::Dma32, r)
            }),
    {
        if let Ok(addr) = self.alloc_frame_in_zone(MemoryZone::Dma) {
            return Ok(addr);
        }
        self.alloc_frame_in_zone(MemoryZone::Dma32)
    }
}

impl PhysicalMemoryManager {
    /// Number of free frames in `[a, b)`.
    pub open spec fn free_frames_in(&self, a: int, b: int) -> nat
        decreases b - a,
    {
        if b <= a {
            0
        } else {
            self.free_frames_in(a, b - 1) + if self.used(b - 1) {
                0nat
            } else {
                1nat
            }
        }
    }

    /// Number of used frames in `[a, b)` among the tracked frames.
    pub open spec fn used_frames_in(&self, a: int, b: int) -> nat
        decreases b - a,
    {
        if b <= a {
            0
        } else {
            self.used_frames_in(a, b - 1) + if 0 <= b - 1 < self.total() && self.used(b - 1) {
                1nat
            } else {
                0nat
            }
        }
    }

    /// First frame of the region `mark_region_*` affects.
    pub open spec fn region_start(base: u64) -> int {
        base as int / 4096
    }

    /// End (exclusive) of the frames of the region `mark_region_*` affects.
    pub open spec fn region_end(base: u64, length: u64) -> int {
        (base + length + 4095) / 4096
    }

    /// Mark the frames overlapping `[base, base + length)` used.
    pub fn mark_region_used(&mut self, base: u64, length: u64)
        requires
            old(self).wf(),
            base + length + 4095 <= u64::MAX,
        ensures
            final(self).wf(),
            old(self).same_layout(final(self)),
            old(self).same_zones(final(self)),
            final(self).hint() == old(self).hint(),
            forall|g: int| #[trigger] final(self).used(g) == (old(self).used(g) || (Self::region_start(base) <= g
                < Self::region_end(base, length))),
            ({
                let k = old(self).free_frames_in(Self::region_start(base), Self::region_end(base, length));
                final(self).free_counter() == if old(self).free_counter() >= k {
                    old(self).free_counter() - k
                } else {
                    0
                }
            }),
            old(self).counter_exact() ==> final(self).counter_exact(),
    {
        let start_frame = base / (PAGE_SIZE as u64);
        let end_frame = (base + length + ((PAGE_SIZE as u64) - 1)) / (PAGE_SIZE as u64);
        self.mark_frames_used(start_frame, end_frame);
    }

    /// Mark the frames overlapping `[base, base + length)` free.
    pub fn mark_region_free(&mut self, base: u64, length: u64)
        requires
            old(self).wf(),
            base + length + 4095 <= u64::MAX,
            old(self).free_counter() + old(self).used_frames_in(Self::region_start(base), Self::region_end(base, length))
                <= usize::MAX,
        ensures
            final(self).wf(),
            old(self).same_layout(final(self)),
            old(self).same_zones(final(self)),
            final(self).hint() == old(self).hint(),
            forall|g: int| #[trigger] final(self).used(g) == (old(self).used(g) && !(Self::region_start(base) <= g
                < Self::region_end(base, length) && g < old(self).total())),
            final(self).free_counter() == old(self).free_counter() + old(self).used_frames_in(
                Self::region_start(base),
                Self::region_end(base, length),
            ),
            old(self).counter_exact() ==> final(self).counter_exact(),
    {
        let start_frame = base / (PAGE_SIZE as u64);
        let end_frame = (base + length + ((PAGE_SIZE as u64) - 1)) / (PAGE_SIZE as u64);
        let stop = if end_frame < self.total_frames as u64 {
            end_frame
        } else {
            self.total_frames as u64
        };
        let ghost a = start_frame as int;
        let ghost b = end_frame as int;
        proof {
            if stop >= a {
                lemma_used_frames_in_mono(old(self), a, stop as int, b);
            }
        }
        let mut frame = start_frame;
        while frame < stop
            invariant
                self.wf(),
                old(self).same_layout(self),
                old(self).same_zones(self),
                self.hint() == old(self).hint(),
                stop <= self.total_frames,
                stop <= b,
                a <= frame,
                a == start_frame,
                frame == a || frame <= stop,
                forall|g: int| #[trigger] self.used(g) == (old(self).used(g) && !(a <= g < frame && g < b
                    && g < old(self).total())),
                self.free_counter() == old(self).free_counter() + old(self).used_frames_in(a, frame as int),
                old(self).free_counter() + old(self).used_frames_in(a, stop as int) <= usize::MAX,
                old(self).counter_exact() ==> self.counter_exact(),
            decreases stop - frame,
        {
            let ghost prev = *self;
            proof {
                lemma_used_frames_in_mono(old(self), a, frame + 1, stop as int);
                assert(prev.used(frame as int) == old(self).used(frame as int));
                assert(old(self).used_frames_in(a, frame + 1) == old(self).used_frames_in(a, frame as int)
                    + if 0 <= frame < old(self).total() && old(self).used(frame as int) { 1nat } else { 0nat });
            }
            self.clear_bit(frame as usize);
            frame += 1;
        }
        proof {
            if a <= b {
                lemma_used_frames_in_tail(old(self), a, frame as int, b);
            }
        }
    }
}

/// The free count of a range is additive at its split point.
pub proof fn lemma_free_frames_in_tail(p: &PhysicalMemoryManager, a: int, m: int, b: int)
    requires
        p.wf(),
        a <= m <= b,
        m >= p.total() || m == b,
    ensures
        p.free_frames_in(a, b) == p.free_frames_in(a, m),
    decreases b - m,
{
    if b > m {
        lemma_free_frames_in_tail(p, a, m, b - 1);
    }
}

/// A range past the tracked frames holds no free frame.
pub proof fn lemma_free_frames_in_zero(p: &PhysicalMemoryManager, a: int, b: int)
    requires
        p.wf(),
        a >= p.total(),
    ensures
        p.free_frames_in(a, b) == 0,
    decreases b - a,
{
    if b > a {
        lemma_free_frames_in_zero(p, a, b - 1);
    }
}

/// Used frames of a range past the tracked frames: none.
pub proof fn lemma_used_frames_in_zero(p: &PhysicalMemoryManager, a: int, b: int)
    requires
        a >= p.total(),
    ensures
        p.used_frames_in(a, b) == 0,
    decreases b - a,
{
    if b > a {
        lemma_used_frames_in_zero(p, a, b - 1);
    }
}

/// Used frames of a range stop growing past the tracked frames.
pub proof fn lemma_used_frames_in_tail(p: &PhysicalMemoryManager, a: int, m: int, b: int)
    requires
        a <= m <= b,
        m >= p.total() || m == b,
    ensures
        p.used_frames_in(a, b) == p.used_frames_in(a, m),
    decreases b - m,
{
    if b > m {
        lemma_used_frames_in_tail(p, a, m, b - 1);
    }
}

/// Used frames of a range grow with its end.
pub proof fn lemma_used_frames_in_mono(p: &PhysicalMemoryManager, a: int, m: int, b: int)
    requires
        m <= b,
    ensures
        p.used_frames_in(a, m) <= p.used_frames_in(a, b),
    decreases b - m,
{
    if b > m {
        lemma_used_frames_in_mono(p, a, m, b - 1);
    }
}

impl PhysicalMemoryManager {
    /// Frame `f0 + i` can be freed: it is tracked and used.
    pub open spec fn can_free(&self, f: int) -> bool {
        0 <= f < self.total() && self.used(f)
    }

    /// Index of the first of the frames `f0 + i .. f0 + count` that cannot be
    /// freed, or `count` when all can.
    pub open spec fn first_unfreeable(&self, f0: int, i: int, count: int) -> int
        decreases count - i,
    {
        if i >= count {
            count
        } else if self.can_free(f0 + i) {
            self.first_unfreeable(f0, i + 1, count)
        } else {
            i
        }
    }

    /// Outcome of `free_frames_contiguous(base_addr, count)` from `self` to
    /// `fin`: the frames from the first one up to the first that is free or
    /// past the end are marked free (error 6 or 7 tells which stopped it), the
    /// counters rise by the frames freed; nothing happens for `count == 0` or
    /// an unaligned address (error 5).
    pub open spec fn contiguous_free_post(&self, fin: &Self, base_addr: u64, count: usize, r: Result<(), MemoryError>) -> bool {
        let f0 = base_addr as int / 4096;
        let m = self.first_unfreeable(f0, 0, count as int);
        if count == 0 {
            r is Ok && *fin == *self
        } else if base_addr % 4096 != 0 {
            (r matches Err(e) && e.code == 5 && !e.fatal) && *fin == *self
        } else {
            &&& m == count ==> r is Ok
            &&& m < count && f0 + m >= self.total() ==> (r matches Err(e) && e.code == 6 && !e.fatal)
            &&& m < count && f0 + m < self.total() ==> (r matches Err(e) && e.code == 7 && !e.fatal)
            &&& forall|g: int| #[trigger] fin.used(g) == (self.used(g) && !(f0 <= g < f0 + m))
            &&& fin.free_counter() == self.free_counter() + m
            &&& self.same_zones(fin)
            &&& self.same_layout(fin)
            &&& fin.hint() == if m > 0 && f0 / 8 < self.hint() {
                (f0 / 8) as nat
            } else {
                self.hint()
            }
        }
    }

    /// Free `count` consecutive frames starting at `base_addr`, stopping at the
    /// first frame that cannot be freed.
    pub fn free_frames_contiguous(&mut self, base_addr: u64, count: usize) -> (r: Result<(), MemoryError>)
        requires
            old(self).wf(),
            ({
                let m = old(self).first_unfreeable(base_addr as int / 4096, 0, count as int);
                base_addr % 4096 == 0 ==> old(self).free_counter() + m <= usize::MAX
            }),
        ensures
            final(self).wf(),
            old(self).same_layout(final(self)),
            old(self).contiguous_free_post(final(self), base_addr, count, r),
            old(self).counter_exact() ==> final(self).counter_exact(),
    {
        if count == 0 {
            return Ok(());
        }
        if base_addr % (PAGE_SIZE as u64) != 0 {
            return Err(memory_error(5, "Address not page-aligned!", false));
        }
        let ghost f0 = base_addr as int / 4096;
        let ghost m = old(self).first_unfreeable(f0, 0, count as int);
        let ghost tot = old(self).total() as int;
        proof {
            lemma_first_unfreeable(old(self), f0, 0, count as int);
        }
        let mut i: usize = 0;
        while i < count
            invariant
                self.wf(),
                old(self).same_layout(self),
                base_addr % 4096 == 0,
                f0 == base_addr as int / 4096,
                m == old(self).first_unfreeable(f0, 0, count as int),
                tot == old(self).total(),
                tot * 4096 <= usize::MAX,
                0 <= m <= count,
                forall|j: int| 0 <= j < m ==> old(self).can_free(#[trigger] (f0 + j)),
                m < count ==> !old(self).can_free(f0 + m),
                i <= m,
                forall|g: int| #[trigger] self.used(g) == (old(self).used(g) && !(f0 <= g < f0 + i)),
                self.free_counter() == old(self).free_counter() + i,
                old(self).free_counter() + m <= usize::MAX,
                old(self).same_zones(self),
                self.hint() == if i > 0 && f0 / 8 < old(self).hint() {
                    (f0 / 8) as nat
                } else {
                    old(self).hint()
                },
                old(self).counter_exact() ==> self.counter_exact(),
            decreases count - i,
        {
            proof {
                if i < m {
                    assert(old(self).can_free(f0 + i));
                    assert((f0 + i) * 4096 <= usize::MAX) by (nonlinear_arith)
                        requires
                            f0 + i < tot,
                            tot * 4096 <= usize::MAX,
                    ;
                } else {
                    assert(!old(self).can_free(f0 + i));
                    if f0 + i < old(self).total() {
                        assert((f0 + i) * 4096 <= usize::MAX) by (nonlinear_arith)
                            requires
                                f0 + i < tot,
                                tot * 4096 <= usize::MAX,
                        ;
                    } else if i > 0 {
                        assert(old(self).can_free(f0 + (i - 1)));
                        assert((f0 + i) * 4096 <= usize::MAX) by (nonlinear_arith)
                            requires
                                f0 + i <= tot,
                                tot * 4096 <= usize::MAX,
                        ;
                    }
                }
            }
            proof {
                assert(base_addr == f0 * 4096);
            }
            let addr = base_addr + (i * PAGE_SIZE) as u64;
            let ghost prev = *self;
            proof {
                assert(addr as int / 4096 == f0 + i);
            }
            match self.free_frame(addr) {
                Ok(()) => {},
                Err(e) => {
                    return Err(e);
                },
            }
            i += 1;
        }
        Ok(())
    }
}

/// The first frame that cannot be freed splits the range: all before it can,
/// and it cannot.
pub proof fn lemma_first_unfreeable(p: &PhysicalMemoryManager, f0: int, i: int, count: int)
    requires
        0 <= i <= count,
    ensures
        i <= p.first_unfreeable(f0, i, count) <= count,
        forall|j: int| i <= j < p.first_unfreeable(f0, i, count) ==> p.can_free(#[trigger] (f0 + j)),
        p.first_unfreeable(f0, i, count) < count ==> !p.can_free(f0 + p.first_unfreeable(f0, i, count)),
    decreases count - i,
{
    if i < count && p.can_free(f0 + i) {
        lemma_first_unfreeable(p, f0, i + 1, count);
    }
}

impl PhysicalMemoryManager {
    /// Length of the run of free frames that ends just below frame `n`.
    pub open spec fn free_run_ending(&self, n: int) -> nat
        decreases n,
    {
        if n <= 0 {
            0
        } else if self.used(n - 1) {
            0
        } else {
            self.free_run_ending(n - 1) + 1
        }
    }

    /// Longest run of free frames among frames `0 .. n`.
    pub open spec fn longest_free_run(&self, n: int) -> nat
        decreases n,
    {
        if n <= 0 {
            0
        } else {
            let prev = self.longest_free_run(n - 1);
            let cur = self.free_run_ending(n);
            if cur > prev {
                cur
            } else {
                prev
            }
        }
    }

    /// Fragmentation estimate: 100 minus the longest free run as a whole
    /// percentage of the free-frame counter (0 when the counter is zero).
    pub fn fragmentation_estimate(&self) -> (r: u8)
        requires
            self.wf(),
            self.free_counter() > 0 ==> (self.longest_free_run(self.total() as int) as int) * 100 / (
            self.free_counter() as int) <= 100,
        ensures
            r == if self.free_counter() == 0 {
                0
            } else {
                100 - (self.longest_free_run(self.total() as int) as int) * 100 / (self.free_counter() as int)
            },
    {
        if self.free_frames == 0 {
            return 0;
        }
        let mut max_contiguous: usize = 0;
        let mut current_run: usize = 0;
        let mut frame: usize = 0;
        while frame < self.total_frames
            invariant
                self.wf(),
                frame <= self.total_frames,
                current_run == self.free_run_ending(frame as int),
                max_contiguous == self.longest_free_run(frame as int),
                current_run <= frame,
                max_contiguous <= frame,
            decreases self.total_frames - frame,
        {
            if !self.test_bit(frame) {
                current_run += 1;
                if current_run > max_contiguous {
                    max_contiguous = current_run;
                }
            } else {
                current_run = 0;
            }
            frame += 1;
        }
        if self.free_frames == 0 {
            return 100;
        }
        proof {
            assert(max_contiguous * 100 <= usize::MAX) by (nonlinear_arith)
                requires
                    max_contiguous <= self.total_frames,
                    self.total_frames * 4096 <= usize::MAX,
            ;
        }
        let ratio = (max_contiguous * 100) / self.free_frames;
        (100 - ratio) as u8
    }
}

/// A run of free frames never exceeds the free frames counted up to its end.
pub proof fn lemma_free_run_le(p: &PhysicalMemoryManager, n: int)
    requires
        p.wf(),
        0 <= n <= p.total(),
    ensures
        p.free_run_ending(n) <= p.free_frames_in(0, n),
        p.longest_free_run(n) <= p.free_frames_in(0, n),
    decreases n,
{
    if n > 0 {
        lemma_free_run_le(p, n - 1);
    }
}

/// The bitmap's free count is the number of free frames among the tracked ones.
proof fn lemma_bitmap_free_is_free_frames(p: &PhysicalMemoryManager, n: int)
    requires
        p.wf(),
        0 <= n <= p.total(),
    ensures
        count_free(p.bitmap@, n as nat) == p.free_frames_in(0, n),
    decreases n,
{
    if n > 0 {
        lemma_bitmap_free_is_free_frames(p, n - 1);
    }
}

impl PhysicalMemoryManager {
    /// All frames of `[s, s + c)` are free.
    pub open spec fn run_free(&self, s: int, c: int) -> bool {
        forall|g: int| s <= g < s + c ==> !#[trigger] self.used(g)
    }

    /// Start of the frame range a contiguous allocation searches.
    pub open spec fn contiguous_lo(&self, zone: Option<MemoryZone>) -> int {
        match zone {
            Some(z) => if zone_first_frame(z) > self.zone_frame_end(z) {
                self.zone_frame_end(z)
            } else {
                zone_first_frame(z)
            },
            None => 0,
        }
    }

    /// End (exclusive) of the frame range a contiguous allocation searches.
    pub open spec fn contiguous_hi(&self, zone: Option<MemoryZone>) -> int {
        match zone {
            Some(z) => self.zone_frame_end(z),
            None => self.total() as int,
        }
    }

    /// `s` is the lowest start in `[lo, hi)` of a run of `c` free frames.
    pub open spec fn first_fit(&self, lo: int, hi: int, c: int, s: int) -> bool {
        &&& lo <= s
        &&& s + c <= hi
        &&& self.run_free(s, c)
        &&& forall|t: int| lo <= t < s ==> !#[trigger] self.run_free(t, c)
    }

    /// Some start in `[lo, hi)` begins a run of `c` free frames.
    pub open spec fn fit_exists(&self, lo: int, hi: int, c: int) -> bool {
        exists|s: int| lo <= s && s + c <= hi && #[trigger] self.run_free(s, c)
    }

    /// The free counter can pay for allocating `[s, s + c)`.
    pub open spec fn contiguous_budget(&self, s: int, c: int) -> bool {
        self.free_counter() >= c
    }

    /// Outcome of allocating a run of `count` frames (two or more) from
    /// `self` to `fin`: error 13 with nothing changed when no run fits in the
    /// searched range, otherwise the lowest fitting run is marked used and the
    /// free counter drops by the frames taken.
    pub open spec fn contiguous_alloc_post(&self, fin: &Self, count: usize, zone: Option<MemoryZone>, r: Result<u64, MemoryError>) -> bool {
        let lo = self.contiguous_lo(zone);
        let hi = self.contiguous_hi(zone);
        &&& !self.fit_exists(lo, hi, count as int) ==> (r matches Err(e) && e.code == 13 && !e.fatal)
        &&& self.fit_exists(lo, hi, count as int) ==> r is Ok
        &&& r is Err ==> *fin == *self
        &&& r matches Ok(addr) ==> {
            let s = addr as int / 4096;
            &&& addr % 4096 == 0
            &&& self.first_fit(lo, hi, count as int, s)
            &&& self.same_layout(fin)
            &&& forall|g: int| #[trigger] fin.used(g) == (self.used(g) || (s <= g < s + count))
            &&& fin.free_counter() == self.free_counter() - count
            &&& self.same_zones(fin)
            &&& fin.hint() == self.hint()
        }
    }

    /// Allocate `count` physically contiguous frames, optionally within one
    /// zone; returns the address of the first. A single frame is allocated as
    /// `alloc_frame_in_zone` or `alloc_frame` would; longer runs take the
    /// lowest fitting run.
    pub fn alloc_frames_contiguous(&mut self, count: usize, zone: Option<MemoryZone>) -> (r: Result<u64, MemoryError>)
        requires
            old(self).wf(),
        ensures
            final(self).wf(),
            count == 0 ==> (r matches Err(e) && e.code == 12 && !e.fatal) && *final(self) == *old(self),
            count == 1 ==> match zone {
                Some(z) => old(self).zone_alloc_post(final(self), z, r),
                None => old(self).frame_alloc_post(final(self), r),
            },
            count >= 2 ==> old(self).contiguous_alloc_post(final(self), count, zone, r),
            old(self).counter_exact() ==> final(self).counter_exact(),
    {
        if count == 0 {
            return Err(memory_error(12, "Cannot allocate zero frames!", false));
        }
        if count == 1 {
            return match zone {
                Some(z) => self.alloc_frame_in_zone(z),
                None => self.alloc_frame(),
            };
        }
        let (start_frame, end_frame) = match zone {
            Some(z) => {
                let end64 = z.end_address() / (PAGE_SIZE as u64);
                let end = if end64 < self.total_frames as u64 {
                    end64 as usize
                } else {
                    self.total_frames
                };
                let start64 = z.start_address() / (PAGE_SIZE as u64);
                let start = if start64 > end as u64 {
                    end
                } else {
                    start64 as usize
                };
                (start, end)
            },
            None => (0, self.total_frames),
        };
        let ghost lo = old(self).contiguous_lo(zone);
        let ghost hi = old(self).contiguous_hi(zone);
        assert(start_frame == lo && end_frame == hi);
        let mut current_frame = start_frame;
        while current_frame <= end_frame && count <= end_frame - current_frame
            invariant
                self.wf(),
                *self == *old(self),
                count >= 2,
                lo == old(self).contiguous_lo(zone),
                hi == old(self).contiguous_hi(zone),
                start_frame == lo,
                end_frame == hi,
                hi <= self.total_frames,
                lo <= current_frame,
                lo <= hi,
                current_frame <= end_frame,
                forall|t: int| lo <= t < current_frame ==> !#[trigger] self.run_free(t, count as int),
            decreases end_frame - current_frame,
        {
            let mut all_free = true;
            let mut offset: usize = 0;
            let ghost start_of_try = current_frame;
            while offset < count
                invariant_except_break
                    current_frame == start_of_try,
                    all_free,
                invariant
                    self.wf(),
                    *self == *old(self),
                    start_of_try + count <= end_frame,
                    end_frame <= self.total_frames,
                    offset <= count,
                    forall|g: int| start_of_try <= g < start_of_try + offset ==> !#[trigger] self.used(g),
                ensures
                    all_free ==> offset == count && current_frame == start_of_try,
                    all_free ==> forall|g: int| start_of_try <= g < start_of_try + count ==> !#[trigger] self.used(g),
                    !all_free ==> {
                        &&& start_of_try < current_frame <= start_of_try + count
                        &&& self.used(current_frame - 1)
                        &&& forall|g: int| start_of_try <= g < current_frame - 1 ==> !#[trigger] self.used(g)
                    },
                decreases count - offset,
            {
                let frame = current_frame + offset;
                if self.test_bit(frame) {
                    all_free = false;
                    current_frame = frame + 1;
                    break;
                }
                offset += 1;
            }
            if all_free {
                let ghost s = start_of_try as int;
                proof {
                    assert(self.first_fit(lo, hi, count as int, s));
                    lemma_bitmap_free_is_free_frames(self, self.total_frames as int);
                    lemma_run_counted(self, s, count as int, self.total_frames as int);
                    assert(self.contiguous_budget(s, count as int));
                }
                let mut off: usize = 0;
                while off < count
                    invariant
                        self.wf(),
                        old(self).same_layout(self),
                        old(self).same_zones(self),
                        self.hint() == old(self).hint(),
                        self.free_frames == old(self).free_frames - off,
                        current_frame == s,
                        s + count <= hi,
                        hi <= self.total_frames,
                        off <= count,
                        old(self).run_free(s, count as int),
                        old(self).contiguous_budget(s, count as int),
                        forall|g: int| #[trigger] self.used(g) == (old(self).used(g) || (s <= g < s + off)),
                        old(self).counter_exact() ==> self.counter_exact(),
                    decreases count - off,
                {
                    let frame = current_frame + off;
                    proof {
                        assert(!self.used(frame as int));
                    }
                    self.set_bit(frame);
                    off += 1;
                }
                let base_addr = (current_frame * PAGE_SIZE) as u64;
                proof {
                    assert(current_frame * 4096 <= usize::MAX) by (nonlinear_arith)
                        requires
                            current_frame < self.total_frames,
                            self.total_frames * 4096 <= usize::MAX,
                    ;
                    assert(base_addr as int / 4096 == s);
                    assert(base_addr % 4096 == 0);
                    assert(old(self).first_fit(lo, hi, count as int, s));
                    assert(old(self).same_layout(self));
                    assert(self.free_counter() == old(self).free_counter() - count);
                    assert(self.hint() == old(self).hint());
                    assert(old(self).run_free(s, count as int));
                    assert(old(self).fit_exists(lo, hi, count as int));
                }
                return Ok(base_addr);
            }
            proof {
                assert forall|t: int| lo <= t < current_frame implies !#[trigger] self.run_free(t, count as int) by {
                    if t >= start_of_try {
                        assert(self.used(current_frame - 1));
                    }
                }
            }
        }
        proof {
            assert forall|s: int| lo <= s && s + count <= hi implies !#[trigger] self.run_free(s, count as int) by {
                assert(s < current_frame);
            }
        }
        Err(memory_error(13, "No contiguous frames available!", false))
    }
}


/// End of the kernel image and its early stack (10 MiB).
pub const KERNEL_END: u64 = 0xA0_0000;

/// Top of the kernel stack (32 MiB).
pub const KERNEL_STACK_TOP: u64 = 0x200_0000;

/// Size of the kernel stack (1 MiB).
pub const KERNEL_STACK_SIZE: u64 = 0x10_0000;

/// Physical addresses on x86_64 are below 2^52.
pub const PHYS_ADDR_LIMIT: u64 = 0x10_0000_0000_0000;

/// Bytes of bitmap, rounded up to whole pages, for highest address `h`.
pub open spec fn bitmap_bytes_aligned(h: u64) -> int {
    let bytes = (h as int / 4096 + 7) / 8;
    ((bytes + 4095) / 4096) * 4096
}

/// First address of usable entry `e` that the bitmap may occupy: not below
/// the kernel.
pub open spec fn bitmap_search_start(e: E820Entry) -> int {
    if e.base < KERNEL_END {
        KERNEL_END as int
    } else {
        e.base as int
    }
}

/// A bitmap of `size` bytes fits in entry `e` above the kernel.
pub open spec fn bitmap_fits(e: E820Entry, size: int) -> bool {
    &&& entry_usable(e)
    &&& e.base + e.length > bitmap_search_start(e)
    &&& e.base + e.length - bitmap_search_start(e) >= size
}

/// Entry `i` is the first entry of `m` in which the bitmap fits.
pub open spec fn first_bitmap_entry(m: Seq<E820Entry>, size: int, i: int) -> bool {
    &&& 0 <= i < m.len()
    &&& bitmap_fits(m[i], size)
    &&& forall|j: int| 0 <= j < i ==> !#[trigger] bitmap_fits(m[j], size)
}

/// Some entry of `m` can hold the bitmap.
pub open spec fn bitmap_fits_somewhere(m: Seq<E820Entry>, size: int) -> bool {
    exists|i: int| 0 <= i < m.len() && #[trigger] bitmap_fits(m[i], size)
}

/// `a` rounded up to a page boundary.
pub open spec fn page_align_up(a: int) -> int {
    if a % 4096 == 0 {
        a
    } else {
        (a / 4096 + 1) * 4096
    }
}

/// Frame `f` lies wholly inside usable entry `e`.
pub open spec fn in_usable_entry(e: E820Entry, f: int) -> bool {
    &&& entry_usable(e)
    &&& (e.base + 4095) / 4096 <= f
    &&& f < (e.base + e.length) / 4096
}

/// Frame `f` lies wholly inside one of the first `n` entries of `m`, which is
/// usable.
pub open spec fn usable_frame_upto(m: Seq<E820Entry>, n: int, f: int) -> bool {
    exists|j: int| 0 <= j < n && #[trigger] in_usable_entry(m[j], f)
}

/// Frames that stay reserved after initialisation: the first MiB, the kernel,
/// the kernel stack, the bitmap and the memory map itself.
pub open spec fn init_reserved(f: int, bitmap_base: int, bitmap_size: int, memmap_base: int, memmap_size: int) -> bool {
    ||| 0 <= f < 0x100
    ||| 0x100 <= f < 0xA00
    ||| 0x1F00 <= f < 0x2000
    ||| bitmap_base / 4096 <= f < (bitmap_base + bitmap_size + 4095) / 4096
    ||| memmap_base / 4096 <= f < (memmap_base + memmap_size + 4095) / 4096
}

/// Frames of zone `z` (as an index) when `total` frames are tracked.
pub open spec fn init_zone_total(z: int, total: int) -> int {
    if z == 0 {
        if total < 0x1000 { total } else { 0x1000 }
    } else if z == 1 {
        if total > 0x1000 {
            if total < 0x10_0000 { total - 0x1000 } else { 0x10_0000 - 0x1000 }
        } else {
            0
        }
    } else if z == 2 {
        if total > 0x10_0000 { total - 0x10_0000 } else { 0 }
    } else {
        0
    }
}

/// What `init` needs: usable entries end below the physical-address limit
/// and within the address space, and the memory map's own frames can be
/// computed.
pub open spec fn init_pre(m: Seq<E820Entry>, memmap_base: u64) -> bool {
    &&& m.len() <= MAX_MEMORY_ENTRIES
    &&& forall|i: int|
        0 <= i < m.len() && entry_usable(#[trigger] m[i]) ==> m[i].base + m[i].length <= PHYS_ADDR_LIMIT
            && m[i].base + m[i].length <= usize::MAX
    &&& memmap_base + m.len() * 24 + 4096 <= u64::MAX
}

/// The highest usable address is bounded by any bound on the usable ends.
pub proof fn lemma_highest_usable_bound(s: Seq<E820Entry>, bound: int)
    requires
        0 <= bound,
        forall|i: int| 0 <= i < s.len() && entry_usable(#[trigger] s[i]) ==> entry_end(s[i]) <= bound,
    ensures
        highest_usable(s) <= bound,
    decreases s.len(),
{
    if s.len() > 0 {
        assert forall|i: int| 0 <= i < s.drop_last().len() && entry_usable(#[trigger] s.drop_last()[i]) implies entry_end(
            s.drop_last()[i],
        ) <= bound by {
            assert(s.drop_last()[i] == s[i]);
        }
        lemma_highest_usable_bound(s.drop_last(), bound);
        assert(s.last() == s[s.len() - 1]);
    }
}

/// Find where the bitmap goes: the search start of the first usable entry in
/// which `size` bytes fit above the kernel.
fn find_bitmap_region(memory_map: &MemoryMap, size: u64) -> (r: Option<u64>)
    requires
        init_pre(memory_map@, 0),
    ensures
        r is None <==> !bitmap_fits_somewhere(memory_map@, size as int),
        r matches Some(a) ==> exists|i: int| #[trigger] first_bitmap_entry(memory_map@, size as int, i)
            && a == bitmap_search_start(memory_map@[i]),
{
    let entry_count = memory_map.entry_count();
    let mut i: usize = 0;
    while i < entry_count
        invariant
            init_pre(memory_map@, 0),
            entry_count == memory_map@.len(),
            i <= entry_count,
            forall|j: int| 0 <= j < i ==> !#[trigger] bitmap_fits(memory_map@[j], size as int),
        decreases entry_count - i,
    {
        let entry = memory_map.get(i).unwrap();
        if entry.is_usable() {
            proof {
                assert(entry_usable(memory_map@[i as int]));
            }
            let region_start = if entry.base < KERNEL_END {
                KERNEL_END
            } else {
                entry.base
            };
            let region_end = entry.base + entry.length;
            if region_end > region_start && region_end - region_start >= size {
                proof {
                    assert(first_bitmap_entry(memory_map@, size as int, i as int));
                }
                return Some(region_start);
            }
        }
        i += 1;
    }
    proof {
        assert forall|j: int| 0 <= j < memory_map@.len() implies !#[trigger] bitmap_fits(memory_map@[j], size as int) by {}
    }
    None
}

impl PhysicalMemoryManager {
    /// Mark the frames `[start, end)` used (frames past the end of the map are
    /// ignored); the counter drops by one, saturating, for each frame that was
    /// free.
    fn mark_frames_used(&mut self, start: u64, end: u64)
        requires
            old(self).wf(),
        ensures
            final(self).wf(),
            old(self).same_layout(final(self)),
            old(self).same_zones(final(self)),
            final(self).hint() == old(self).hint(),
            forall|g: int| #[trigger] final(self).used(g) == (old(self).used(g) || (start <= g < end)),
            ({
                let k = old(self).free_frames_in(start as int, end as int);
                final(self).free_counter() == if old(self).free_counter() >= k {
                    old(self).free_counter() - k
                } else {
                    0
                }
            }),
            old(self).counter_exact() ==> final(self).counter_exact(),
    {
        let stop = if end < self.total_frames as u64 {
            end
        } else {
            self.total_frames as u64
        };
        let ghost a = start as int;
        let ghost b = end as int;
        let mut frame = start;
        while frame < stop
            invariant
                self.wf(),
                old(self).same_layout(self),
                old(self).same_zones(self),
                self.hint() == old(self).hint(),
                stop <= self.total_frames,
                stop <= b,
                a <= frame,
                a == start,
                frame == a || frame <= stop,
                forall|g: int| #[trigger] self.used(g) == (old(self).used(g) || (a <= g < frame && g < b)),
                ({
                    let k = old(self).free_frames_in(a, frame as int);
                    self.free_counter() == if old(self).free_counter() >= k {
                        old(self).free_counter() - k
                    } else {
                        0
                    }
                }),
                old(self).counter_exact() ==> self.counter_exact(),
            decreases stop - frame,
        {
            let ghost prev = *self;
            proof {
                assert(prev.used(frame as int) == old(self).used(frame as int));
                assert(old(self).free_frames_in(a, frame + 1) == old(self).free_frames_in(a, frame as int)
                    + if old(self).used(frame as int) { 0nat } else { 1nat });
            }
            self.set_bit(frame as usize);
            frame += 1;
        }
        proof {
            if frame < b {
                assert(frame >= self.total_frames);
            }
            assert forall|g: int| #[trigger] self.used(g) == (old(self).used(g) || (a <= g < b)) by {
                if frame <= g < b {
                    assert(g >= self.total_frames);
                }
            }
            if a <= b {
                lemma_free_frames_in_tail(old(self), a, frame as int, b);
            }
        }
    }
}

impl PhysicalMemoryManager {
    /// Mark free every frame that lies wholly inside a usable entry, counting
    /// one free frame per frame that was used (a frame in two overlapping
    /// entries is counted once).
    fn clear_usable_regions(&mut self, memory_map: &MemoryMap)
        requires
            old(self).wf(),
            old(self).free_counter() == 0,
            forall|f: int| 0 <= f < old(self).total() ==> #[trigger] old(self).used(f),
            init_pre(memory_map@, 0),
        ensures
            final(self).wf(),
            old(self).same_layout(final(self)),
            old(self).same_zones(final(self)),
            final(self).hint() == old(self).hint(),
            forall|f: int| 0 <= f < final(self).total() ==> #[trigger] final(self).used(f) == !usable_frame_upto(
                memory_map@,
                memory_map@.len() as int,
                f,
            ),
            final(self).counter_exact(),
    {
        let ghost m = memory_map@;
        let entry_count = memory_map.entry_count();
        let total = self.total_frames;
        proof {
            assert forall|f: int| 0 <= f < total implies frame_used(self.bitmap@, f) by {
                assert(self.used(f));
            }
            lemma_count_free_all_used(self.bitmap@, total as nat);
        }
        let mut i: usize = 0;
        while i < entry_count
            invariant
                self.wf(),
                old(self).same_layout(self),
                old(self).same_zones(self),
                self.hint() == old(self).hint(),
                init_pre(m, 0),
                m == memory_map@,
                entry_count == m.len(),
                total == self.total_frames,
                i <= entry_count,
                forall|f: int| 0 <= f < total ==> #[trigger] self.used(f) == !usable_frame_upto(m, i as int, f),
                self.counter_exact(),
                self.free_frames <= i * total,
            decreases entry_count - i,
        {
            let entry = memory_map.get(i).unwrap();
            proof {
                assert(i * total <= 64 * total) by (nonlinear_arith)
                    requires
                        i < 64,
                ;
                assert forall|f: int| #[trigger] usable_frame_upto(m, i + 1, f) == (usable_frame_upto(m, i as int, f)
                    || in_usable_entry(m[i as int], f)) by {
                    if in_usable_entry(m[i as int], f) {
                        assert(0 <= i < i + 1 && in_usable_entry(m[i as int], f));
                    }
                    if usable_frame_upto(m, i + 1, f) && !usable_frame_upto(m, i as int, f) {
                        let j = choose|j: int| 0 <= j < i + 1 && #[trigger] in_usable_entry(m[j], f);
                        assert(j == i);
                    }
                }
            }
            if entry.is_usable() {
                let region_base = entry.base;
                let region_end = entry.base + entry.length;
                let start_frame = (region_base + (PAGE_SIZE as u64) - 1) / (PAGE_SIZE as u64);
                let end64 = region_end / (PAGE_SIZE as u64);
                if start_frame < total as u64 {
                    let end_frame: usize = if end64 > total as u64 {
                        total
                    } else {
                        end64 as usize
                    };
                    let mut frame: usize = start_frame as usize;
                    while frame < end_frame
                        invariant
                            self.wf(),
                            old(self).same_layout(self),
                            old(self).same_zones(self),
                            self.hint() == old(self).hint(),
                            m == memory_map@,
                            total == self.total_frames,
                            i < entry_count,
                            entry_count == m.len(),
                            entry == m[i as int],
                            entry_usable(entry),
                            start_frame == (entry.base + 4095) / 4096,
                            end_frame <= total,
                            end_frame <= (entry.base + entry.length) / 4096,
                            end_frame == total || end_frame == (entry.base + entry.length) / 4096,
                            start_frame <= frame,
                            frame <= end_frame || frame == start_frame,
                            forall|f: int| 0 <= f < total ==> #[trigger] self.used(f) == !(usable_frame_upto(m, i as int, f)
                                || (start_frame <= f < frame)),
                            self.counter_exact(),
                            self.free_frames <= i * total + (frame - start_frame),
                            i * total <= 64 * total,
                        decreases end_frame - frame,
                    {
                        let byte_idx = frame / 8;
                        let bit_offset = frame % 8;
                        let ghost before = self.bitmap@;
                        let ghost prev = *self;
                        proof {
                            lemma_frame_clear(before, frame as int);
                        }
                        let byte_value = self.bitmap[byte_idx];
                        if byte_value & (1u8 << (bit_offset as u8)) != 0 {
                            proof {
                                assert(frame_used(before, frame as int));
                                lemma_count_free_le(before, self.total_frames as nat);
                            }
                            self.bitmap.set(byte_idx, byte_value & !(1u8 << (bit_offset as u8)));
                            self.free_frames += 1;
                            proof {
                                lemma_count_free_one_change(before, self.bitmap@, self.total_frames as nat, frame as int);
                                assert forall|k: int| 0 <= k < 8 implies #[trigger] self.numa(k) == prev.numa(k) by {}
                                assert forall|z: int| 0 <= z < 4 implies #[trigger] self.zone(z) == prev.zone(z) by {}
                                assert forall|f: int| 0 <= f < total implies #[trigger] self.used(f) == (f != frame && prev.used(f)) by {
                                    assert(f / 8 < before.len());
                                    assert(frame_used(self.bitmap@, f) == (f != frame && frame_used(before, f)));
                                }
                            }
                        } else {
                            proof {
                                assert(!frame_used(before, frame as int));
                                assert forall|f: int| 0 <= f < total implies #[trigger] self.used(f) == (f != frame && prev.used(f)) by {
                                    if f == frame {
                                        assert(!self.used(f));
                                    }
                                }
                            }
                        }
                        frame += 1;
                    }
                    proof {
                        assert forall|f: int| 0 <= f < total implies #[trigger] self.used(f) == !usable_frame_upto(m, i + 1, f) by {
                            assert(usable_frame_upto(m, i + 1, f) == (usable_frame_upto(m, i as int, f)
                                || in_usable_entry(m[i as int], f)));
                        }
                        assert((i + 1) * total == i * total + total) by (nonlinear_arith);
                    }
                } else {
                    proof {
                        assert forall|f: int| 0 <= f < total implies #[trigger] self.used(f) == !usable_frame_upto(m, i + 1, f) by {
                            assert(usable_frame_upto(m, i + 1, f) == (usable_frame_upto(m, i as int, f)
                                || in_usable_entry(m[i as int], f)));
                        }
                        assert((i + 1) * total == i * total + total) by (nonlinear_arith);
                    }
                }
            } else {
                proof {
                    assert forall|f: int| 0 <= f < total implies #[trigger] self.used(f) == !usable_frame_upto(m, i + 1, f) by {
                        assert(usable_frame_upto(m, i + 1, f) == (usable_frame_upto(m, i as int, f)
                            || in_usable_entry(m[i as int], f)));
                    }
                    assert((i + 1) * total == i * total + total) by (nonlinear_arith);
                }
            }
            i += 1;
        }
    }
}

/// Along a run of calls that keep the layout (allocations and frees), the
/// NUMA view set up by `init` stays in step: one node, whose total is the
/// frame total and whose free count is the global free counter.
pub proof fn lemma_numa_tracks(ps: Seq<PhysicalMemoryManager>)
    requires
        ps.len() > 0,
        ps[0].numa_nodes_spec() == 1,
        ps[0].numa(0).total_frames == ps[0].total(),
        forall|i: int| 0 <= i < ps.len() - 1 ==> #[trigger] ps[i].same_layout(&ps[i + 1]),
    ensures
        forall|i: int|
            #![trigger ps[i]]
            0 <= i < ps.len() ==> ps[i].numa_nodes_spec() == 1 && ps[i].numa(0).total_frames
                == ps[i].total() && ps[i].numa_free(0) == ps[i].free_counter(),
{
    assert forall|i: int|
        #![trigger ps[i]]
        0 <= i < ps.len() implies ps[i].numa_nodes_spec() == 1 && ps[i].numa(0).total_frames
            == ps[i].total() && ps[i].numa_free(0) == ps[i].free_counter() by {
        lemma_layout_chain(ps, i);
    }
}

proof fn lemma_layout_chain(ps: Seq<PhysicalMemoryManager>, i: int)
    requires
        0 <= i < ps.len(),
        forall|k: int| 0 <= k < ps.len() - 1 ==> #[trigger] ps[k].same_layout(&ps[k + 1]),
    ensures
        ps[i].total() == ps[0].total(),
        ps[i].numa_nodes_spec() == ps[0].numa_nodes_spec(),
        ps[i].numa(0) == ps[0].numa(0),
    decreases i,
{
    if i > 0 {
        lemma_layout_chain(ps, i - 1);
        let k = i - 1;
        assert(ps[k].same_layout(&ps[k + 1]));
        assert(ps[k + 1].numa(0) == ps[k].numa(0));
    }
}

/// Frames outside the tracked range count as used.
pub proof fn lemma_used_past_total(p: &PhysicalMemoryManager, f: int)
    ensures
        f < 0 || f >= p.total() ==> p.used(f),
{
}

/// A well-formed manager's free counter agrees with its bitmap.
pub proof fn lemma_wf_exact(p: PhysicalMemoryManager)
    requires
        p.wf(),
    ensures
        p.counter_exact(),
{
}

impl PhysicalMemoryManager {
    /// Set the bits of the last bitmap byte that lie past the last frame.
    fn mark_phantom_bits(&mut self)
        requires
            old(self).wf_core(),
            old(self).counter_exact(),
        ensures
            final(self).wf(),
            old(self).same_layout(final(self)),
            old(self).same_zones(final(self)),
            final(self).hint() == old(self).hint(),
            forall|g: int| #[trigger] final(self).used(g) == old(self).used(g),
            final(self).free_counter() == old(self).free_counter(),
            final(self).bitmap_free() == old(self).bitmap_free(),
            old(self).counter_exact() ==> final(self).counter_exact(),
    {
        let remaining_bits = self.total_frames % 8;
        if remaining_bits != 0 {
            let last_byte_index = self.total_frames / 8;
            let mut bit = remaining_bits;
            while bit < 8
                invariant
                    self.wf_core(),
                    forall|g: int|
                        self.total_frames <= g < last_byte_index * 8 + bit ==> frame_used(self.bitmap@, g),
                    old(self).same_layout(self),
                    old(self).same_zones(self),
                    self.hint() == old(self).hint(),
                    self.free_frames == old(self).free_frames,
                    forall|g: int| #[trigger] self.used(g) == old(self).used(g),
                    self.bitmap_free() == old(self).bitmap_free(),
                    remaining_bits == self.total_frames % 8,
                    remaining_bits != 0,
                    last_byte_index == self.total_frames / 8,
                    remaining_bits <= bit <= 8,
                decreases 8 - bit,
            {
                let ghost before = self.bitmap@;
                let ghost prev = *self;
                let ghost f = last_byte_index * 8 + bit;
                proof {
                    assert(f / 8 == last_byte_index && f % 8 == bit);
                    lemma_frame_set(before, f);
                }
                let byte_value = self.bitmap[last_byte_index];
                self.bitmap.set(last_byte_index, byte_value | (1u8 << (bit as u8)));
                proof {
                    assert forall|g: int| 0 <= g < self.total_frames implies frame_used(self.bitmap@, g) == frame_used(before, g) by {
                        assert(g / 8 < before.len());
                    }
                    lemma_count_free_same(before, self.bitmap@, self.total_frames as nat);
                    assert forall|g: int| #[trigger] self.used(g) == prev.used(g) by {
                        if 0 <= g < self.total_frames {
                            assert(g / 8 < before.len());
                        }
                    }
                    assert forall|g: int| self.total_frames <= g < f + 1 implies frame_used(self.bitmap@, g) by {
                        assert(g / 8 < before.len());
                    }
                    assert forall|k: int| 0 <= k < 8 implies #[trigger] self.numa(k) == prev.numa(k) by {}
                    assert forall|z: int| 0 <= z < 4 implies #[trigger] self.zone(z) == prev.zone(z) by {}
                }
                bit += 1;
            }
        }
        proof {
            assert forall|g: int| self.total_frames <= g < 8 * self.bitmap_size implies frame_used(self.bitmap@, g) by {}
        }
    }
}

impl PhysicalMemoryManager {
    /// `self` is the manager `init` builds from memory map `m` whose entries
    /// are stored at `memmap_base`.
    pub open spec fn init_post(&self, m: Seq<E820Entry>, memmap_base: u64) -> bool {
        let h = highest_usable(m);
        let total = h as int / 4096;
        &&& self.wf()
        &&& self.highest() == h
        &&& self.total() == total
        &&& self.map_bytes() == (total + 7) / 8
        &&& self.hint() == 0
        &&& exists|i: int| #[trigger] first_bitmap_entry(m, bitmap_bytes_aligned(h), i)
            && self.bitmap_addr() == page_align_up(bitmap_search_start(m[i]))
        &&& forall|f: int| 0 <= f < total ==> #[trigger] self.used(f) == (!usable_frame_upto(m, m.len() as int, f)
            || init_reserved(f, self.bitmap_addr() as int, self.map_bytes() as int, memmap_base as int, (m.len() * 24) as int))
        &&& self.counter_exact()
        &&& forall|z: int| 0 <= z < 4 ==> #[trigger] self.zone(z).total_frames == init_zone_total(z, total)
        &&& forall|z: int| 0 <= z < 4 ==> #[trigger] self.zone(z).last_alloc_index == 0
        &&& self.numa_nodes_spec() == 1
        &&& self.numa(0).total_frames == total
        &&& self.numa(0).free_frames == self.free_counter()
        &&& forall|k: int| 1 <= k < 8 ==> #[trigger] self.numa(k).total_frames == 0 && self.numa(k).free_frames == 0
    }

    /// Build the manager from the E820 map whose entries are stored at
    /// `memmap_base`: one bit per frame up to the highest usable address, the
    /// bitmap placed at the first page above the kernel in a usable region
    /// large enough, frames wholly inside usable regions free, and the first
    /// MiB, the kernel, its stack, the bitmap and the memory map reserved.
    pub fn init(memory_map: &MemoryMap, memmap_base: u64) -> (r: Result<PhysicalMemoryManager, MemoryError>)
        requires
            init_pre(memory_map@, memmap_base),
        ensures
            highest_usable(memory_map@) == 0 ==> (r matches Err(e) && e.code == 1 && e.fatal),
            highest_usable(memory_map@) != 0 && !bitmap_fits_somewhere(
                memory_map@,
                bitmap_bytes_aligned(highest_usable(memory_map@)),
            ) ==> (r matches Err(e) && e.code == 2 && e.fatal),
            highest_usable(memory_map@) != 0 && bitmap_fits_somewhere(
                memory_map@,
                bitmap_bytes_aligned(highest_usable(memory_map@)),
            ) ==> r is Ok,
            r matches Ok(p) ==> p.init_post(memory_map@, memmap_base),
    {
        let ghost m = memory_map@;
        let highest_address = memory_map.highest_usable_address();
        if highest_address == 0 {
            return Err(memory_error(1, "No memory detected!", true));
        }
        proof {
            assert forall|i: int| 0 <= i < m.len() && entry_usable(#[trigger] m[i]) implies entry_end(m[i])
                <= PHYS_ADDR_LIMIT && entry_end(m[i]) <= usize::MAX by {}
            lemma_highest_usable_bound(m, PHYS_ADDR_LIMIT as int);
            lemma_highest_usable_bound(m, usize::MAX as int);
        }
        let total_frames = (highest_address / (PAGE_SIZE as u64)) as usize;
        proof {
            assert(total_frames * 4096 <= highest_address) by (nonlinear_arith)
                requires
                    total_frames == highest_address / 4096,
            ;
        }
        let bitmap_size = (total_frames + 7) / 8;
        let bitmap_size_aligned = ((bitmap_size + PAGE_SIZE - 1) / PAGE_SIZE) * PAGE_SIZE;
        proof {
            assert(bitmap_size_aligned == bitmap_bytes_aligned(highest_address));
        }
        let found = find_bitmap_region(memory_map, bitmap_size_aligned as u64);
        let mut bitmap_base_address = match found {
            Some(a) => a,
            None => {
                return Err(memory_error(2, "No suitable region for bitmap!", true));
            },
        };
        let ghost fit = choose|i: int| #[trigger] first_bitmap_entry(m, bitmap_size_aligned as int, i)
            && bitmap_base_address == bitmap_search_start(m[i]);
        proof {
            assert(bitmap_base_address < m[fit].base + m[fit].length);
        }
        if bitmap_base_address % (PAGE_SIZE as u64) != 0 {
            bitmap_base_address = ((bitmap_base_address / (PAGE_SIZE as u64)) + 1) * (PAGE_SIZE as u64);
        }
        let mut bitmap: Vec<u8> = Vec::new();
        let mut k: usize = 0;
        while k < bitmap_size
            invariant
                k <= bitmap_size,
                bitmap@.len() == k,
                forall|j: int| 0 <= j < k ==> bitmap@[j] == 0xFFu8,
            decreases bitmap_size - k,
        {
            bitmap.push(0xFF);
            k += 1;
        }
        let mut zones: Vec<ZoneStats> = Vec::new();
        zones.push(ZoneStats::new());
        zones.push(ZoneStats::new());
        zones.push(ZoneStats::new());
        zones.push(ZoneStats::new());
        let mut numa_nodes: Vec<NumaStats> = Vec::new();
        let mut n: usize = 0;
        while n < 8
            invariant
                n <= 8,
                numa_nodes@.len() == n,
                forall|j: int| 0 <= j < n ==> numa_nodes@[j].total_frames == 0 && numa_nodes@[j].free_frames == 0,
            decreases 8 - n,
        {
            numa_nodes.push(NumaStats::new());
            n += 1;
        }
        let mut pmm = PhysicalMemoryManager {
            bitmap,
            bitmap_base: bitmap_base_address,
            bitmap_size,
            bitmap_size_aligned,
            total_frames,
            free_frames: 0,
            last_alloc_index: 0,
            highest_address,
            zones,
            numa_nodes,
            numa_count: 1,
        };
        proof {
            assert forall|f: int| 0 <= f < 8 * bitmap_size implies frame_used(pmm.bitmap@, f) by {
                lemma_ff_bits((f % 8) as u8);
            }
            lemma_count_free_all_used(pmm.bitmap@, total_frames as nat);
        }
        let ghost fresh = pmm;
        pmm.clear_usable_regions(memory_map);
        let ghost cleared = pmm;
        pmm.mark_frames_used(0, (0x10_0000 / PAGE_SIZE) as u64);
        pmm.mark_frames_used((0x10_0000 / PAGE_SIZE) as u64, ((0x10_0000 + 9 * 1024 * 1024) / PAGE_SIZE) as u64);
        let stack_start_frame = (KERNEL_STACK_TOP - KERNEL_STACK_SIZE) / (PAGE_SIZE as u64);
        let stack_end_frame = KERNEL_STACK_TOP / (PAGE_SIZE as u64);
        pmm.mark_frames_used(stack_start_frame, stack_end_frame);
        let bitmap_start_frame = bitmap_base_address / (PAGE_SIZE as u64);
        let bitmap_end_frame = (bitmap_base_address + bitmap_size as u64 + (PAGE_SIZE as u64) - 1) / (PAGE_SIZE as u64);
        pmm.mark_frames_used(bitmap_start_frame, bitmap_end_frame);
        let (_entries, map_entry_count) = memory_map.entries_raw();
        let memmap_size = map_entry_count * E820_ENTRY_SIZE;
        proof {
            assert(memmap_size == m.len() * 24);
        }
        let memmap_start_frame = memmap_base / (PAGE_SIZE as u64);
        let memmap_end_frame = (memmap_base + memmap_size as u64 + (PAGE_SIZE as u64) - 1) / (PAGE_SIZE as u64);
        pmm.mark_frames_used(memmap_start_frame, memmap_end_frame);
        pmm.mark_phantom_bits();
        let dma_end_frame = (DMA_ZONE_END / (PAGE_SIZE as u64)) as usize;
        let dma32_end_frame = (DMA32_ZONE_END / (PAGE_SIZE as u64)) as usize;
        let ghost marked = pmm;
        let mut z0 = pmm.zones[0];
        z0.total_frames = if total_frames < dma_end_frame {
            total_frames
        } else {
            dma_end_frame
        };
        pmm.zones.set(0, z0);
        let mut z1 = pmm.zones[1];
        z1.total_frames = if total_frames > dma_end_frame {
            if total_frames < dma32_end_frame {
                total_frames - dma_end_frame
            } else {
                dma32_end_frame - dma_end_frame
            }
        } else {
            0
        };
        pmm.zones.set(1, z1);
        let mut z2 = pmm.zones[2];
        z2.total_frames = if total_frames > dma32_end_frame {
            total_frames - dma32_end_frame
        } else {
            0
        };
        pmm.zones.set(2, z2);
        let mut node0 = pmm.numa_nodes[0];
        node0.total_frames = total_frames;
        node0.free_frames = pmm.free_frames;
        pmm.numa_nodes.set(0, node0);
        proof {
            assert(first_bitmap_entry(m, bitmap_bytes_aligned(highest_address), fit));
            assert forall|f: int| 0 <= f < total_frames implies #[trigger] pmm.used(f) == (!usable_frame_upto(m, m.len() as int, f)
                || init_reserved(f, pmm.bitmap_addr() as int, pmm.map_bytes() as int, memmap_base as int, (m.len() * 24) as int)) by {
                assert(pmm.used(f) == marked.used(f));
                assert(cleared.used(f) == !usable_frame_upto(m, m.len() as int, f));
            }
            assert(pmm.bitmap_free() == marked.bitmap_free());
            assert(pmm.wf());
            assert(pmm.highest() == highest_usable(m));
            assert(pmm.total() == highest_usable(m) as int / 4096);
            assert(pmm.map_bytes() == (pmm.total() + 7) / 8);
            assert(pmm.hint() == 0);
            assert(pmm.counter_exact());
            assert forall|z: int| 0 <= z < 4 implies #[trigger] pmm.zone(z).total_frames == init_zone_total(z, pmm.total() as int) by {
                assert(marked.zone(z) == fresh.zone(z));
            }
            assert forall|z: int| 0 <= z < 4 implies #[trigger] pmm.zone(z).free_frames == 0 by {
                assert(marked.zone(z) == fresh.zone(z));
            }
            assert forall|z: int| 0 <= z < 4 implies #[trigger] pmm.zone(z).last_alloc_index == 0 by {
                assert(marked.zone(z) == fresh.zone(z));
            }
            assert forall|k: int| 1 <= k < 8 implies #[trigger] pmm.numa(k).total_frames == 0 && pmm.numa(k).free_frames == 0 by {
                assert(marked.numa(k) == fresh.numa(k));
            }
            assert(exists|i: int| #[trigger] first_bitmap_entry(m, bitmap_bytes_aligned(highest_usable(m)), i)
                && pmm.bitmap_addr() == page_align_up(bitmap_search_start(m[i])));
            assert(pmm.numa_nodes_spec() == 1);
            assert(pmm.numa(0).free_frames == pmm.free_counter());
        }
        Ok(pmm)
    }
}

/// With an exact counter, the counter is non-zero exactly when some frame is
/// free, so `alloc_frame` fails only when memory is exhausted.
pub proof fn lemma_exact_counter_has_free(p: &PhysicalMemoryManager)
    requires
        p.wf(),
        p.counter_exact(),
    ensures
        p.free_counter() > 0 <==> p.has_free_frame(),
{
    lemma_bitmap_free_is_free_frames(p, p.total() as int);
    if p.has_free_frame() {
        let f = choose|f: int| 0 <= f < p.total() && !#[trigger] p.used(f);
        lemma_free_frames_in_positive(p, f, p.total() as int);
    } else {
        lemma_free_frames_in_none(p, p.total() as int);
    }
}

/// `[0, n)` holds a free frame `f`: its free count is positive.
proof fn lemma_free_frames_in_positive(p: &PhysicalMemoryManager, f: int, n: int)
    requires
        0 <= f < n,
        !p.used(f),
    ensures
        p.free_frames_in(0, n) > 0,
    decreases n,
{
    if f < n - 1 {
        lemma_free_frames_in_positive(p, f, n - 1);
    }
}

/// No frame of `[0, n)` is free: its free count is zero.
proof fn lemma_free_frames_in_none(p: &PhysicalMemoryManager, n: int)
    requires
        forall|f: int| 0 <= f < n ==> #[trigger] p.used(f),
    ensures
        p.free_frames_in(0, n) == 0,
    decreases n,
{
    if n > 0 {
        lemma_free_frames_in_none(p, n - 1);
    }
}

/// Allocating a frame and freeing it again gives back the same frame usage
/// and the same free counter.
pub proof fn lemma_alloc_free_roundtrip(
    p0: &PhysicalMemoryManager,
    p1: &PhysicalMemoryManager,
    addr: u64,
    p2: &PhysicalMemoryManager,
    r2: Result<(), MemoryError>,
)
    requires
        p0.frame_alloc_post(p1, Ok(addr)),
        p1.free_frame_post(p2, addr, r2),
    ensures
        r2 is Ok,
        forall|g: int| #[trigger] p2.used(g) == p0.used(g),
        p2.free_counter() == p0.free_counter(),
{
    assert(p1.free_frame_error(addr) is None);
    assert forall|g: int| #[trigger] p2.used(g) == p0.used(g) by {
        if g != addr / 4096 {
            assert(p1.used(g) == p0.used(g));
        }
    }
}

/// With an exact counter, no run of free frames is longer than the counter.
pub proof fn lemma_longest_run_le_counter(p: &PhysicalMemoryManager)
    requires
        p.wf(),
        p.counter_exact(),
    ensures
        p.longest_free_run(p.total() as int) <= p.free_counter(),
{
    lemma_free_run_le(p, p.total() as int);
    lemma_bitmap_free_is_free_frames(p, p.total() as int);
}

/// Allocating a run of frames (one or more, as `alloc_frames_contiguous`
/// does) and freeing the same run gives back the same frame usage, the same
/// free counter and the same free frames in every zone.
pub proof fn lemma_contiguous_roundtrip(
    p0: &PhysicalMemoryManager,
    p1: &PhysicalMemoryManager,
    count: usize,
    zone: Option<MemoryZone>,
    addr: u64,
    p2: &PhysicalMemoryManager,
    r2: Result<(), MemoryError>,
)
    requires
        count >= 1,
        p0.wf(),
        count >= 2 ==> p0.contiguous_alloc_post(p1, count, zone, Ok(addr)),
        count == 1 ==> match zone {
            Some(z) => p0.zone_alloc_post(p1, z, Ok(addr)),
            None => p0.frame_alloc_post(p1, Ok(addr)),
        },
        p1.contiguous_free_post(p2, addr, count, r2),
    ensures
        r2 is Ok,
        forall|g: int| #[trigger] p2.used(g) == p0.used(g),
        p2.free_counter() == p0.free_counter(),
        forall|z: MemoryZone| #[trigger] p2.zone_free(z) == p0.zone_free(z),
{
    let s = addr as int / 4096;
    if count >= 2 {
        let lo = p0.contiguous_lo(zone);
        let hi = p0.contiguous_hi(zone);
        assert(p0.first_fit(lo, hi, count as int, s));
        assert(hi <= p0.total());
    } else {
        assert(!p0.used(s) && p1.used(s));
        assert(s < p0.total());
        assert(addr % 4096 == 0);
    }
    lemma_first_unfreeable(p1, s, 0, count as int);
    let m = p1.first_unfreeable(s, 0, count as int);
    if m < count {
        assert(p1.used(s + m));
        assert(!p1.can_free(s + m));
    }
    assert(m == count);
    assert forall|g: int| #[trigger] p2.used(g) == p0.used(g) by {
        if s <= g < s + count {
            assert(!p0.used(g));
        }
    }
    assert forall|z: MemoryZone| #[trigger] p2.zone_free(z) == p0.zone_free(z) by {
        lemma_free_frames_in_same(p0, p2, zone_first_frame(z), p0.zone_frame_end(z));
    }
}

/// A range of `n` frames holds at most `n` free frames.
pub proof fn lemma_free_frames_in_le(p: &PhysicalMemoryManager, a: int, b: int)
    ensures
        p.free_frames_in(a, b) <= if b > a { b - a } else { 0 },
    decreases b - a,
{
    if b > a {
        lemma_free_frames_in_le(p, a, b - 1);
    }
}

/// When `q` differs from `p` only at frame `g`, the free frames of `[a, b)`
/// differ by the change at `g`.
pub proof fn lemma_free_frames_in_one_change(p: &PhysicalMemoryManager, q: &PhysicalMemoryManager, a: int, b: int, g: int)
    requires
        p.same_except(q, g),
    ensures
        q.free_frames_in(a, b) + (if a <= g < b && !p.used(g) { 1int } else { 0int }) == p.free_frames_in(a, b) + (
        if a <= g < b && !q.used(g) {
            1int
        } else {
            0int
        }),
    decreases b - a,
{
    if b > a {
        lemma_free_frames_in_one_change(p, q, a, b - 1, g);
        if b - 1 != g {
            assert(q.used(b - 1) == p.used(b - 1));
        }
    }
}

/// Marking free frame `g` used lowers the free frames of the zone holding
/// it by one and leaves the other zones' counts (for managers of the same size).
pub proof fn lemma_zone_free_after_take(p: &PhysicalMemoryManager, q: &PhysicalMemoryManager, g: int)
    requires
        p.same_except(q, g),
        !p.used(g),
        q.used(g),
        q.total() == p.total(),
    ensures
        forall|z: MemoryZone| #[trigger] q.zone_free(z) == p.zone_free(z) - if p.in_zone(g, z) { 1int } else { 0int },
{
    assert forall|z: MemoryZone| #[trigger] q.zone_free(z) == p.zone_free(z) - if p.in_zone(g, z) { 1int } else { 0int } by {
        lemma_free_frames_in_one_change(p, q, zone_first_frame(z), p.zone_frame_end(z), g);
    }
}

/// Marking used frame `g` free raises the free frames of the zone holding
/// it by one and leaves the other zones' counts (for managers of the same size).
pub proof fn lemma_zone_free_after_release(p: &PhysicalMemoryManager, q: &PhysicalMemoryManager, g: int)
    requires
        p.same_except(q, g),
        p.used(g),
        !q.used(g),
        q.total() == p.total(),
    ensures
        forall|z: MemoryZone| #[trigger] q.zone_free(z) == p.zone_free(z) + if p.in_zone(g, z) { 1int } else { 0int },
{
    assert forall|z: MemoryZone| #[trigger] q.zone_free(z) == p.zone_free(z) + if p.in_zone(g, z) { 1int } else { 0int } by {
        lemma_free_frames_in_one_change(p, q, zone_first_frame(z), p.zone_frame_end(z), g);
    }
}

/// A run of `c` free frames at `s` inside `[0, n)` makes `[0, n)` hold at
/// least `c` free frames.
proof fn lemma_run_counted(p: &PhysicalMemoryManager, s: int, c: int, n: int)
    requires
        0 <= s,
        0 <= c,
        s + c <= n,
        p.run_free(s, c),
    ensures
        p.free_frames_in(0, n) >= c,
    decreases n,
{
    if c > 0 {
        if n > s + c {
            lemma_run_counted(p, s, c, n - 1);
        } else {
            assert(!p.used(n - 1));
            lemma_run_counted(p, s, c - 1, n - 1);
        }
    }
}

/// Managers with the same frame usage have the same free frames in every
/// range.
pub proof fn lemma_free_frames_in_same(p: &PhysicalMemoryManager, q: &PhysicalMemoryManager, a: int, b: int)
    requires
        forall|g: int| #[trigger] q.used(g) == p.used(g),
    ensures
        q.free_frames_in(a, b) == p.free_frames_in(a, b),
    decreases b - a,
{
    if b > a {
        lemma_free_frames_in_same(p, q, a, b - 1);
    }
}

/// With an exact counter, a zone allocation never finds a free frame while
/// the counter is zero.
pub proof fn lemma_exact_counter_zone_pre(p: &PhysicalMemoryManager, zone: MemoryZone)
    requires
        p.wf(),
        p.counter_exact(),
    ensures
        p.zone_alloc_pre(zone),
{
    lemma_exact_counter_has_free(p);
    if p.free_in(zone_first_frame(zone), p.zone_frame_end(zone)) {
        let f = choose|f: int| zone_first_frame(zone) <= f < p.zone_frame_end(zone) && !#[trigger] p.used(f);
        assert(0 <= f < p.total());
        assert(p.has_free_frame());
    }
}

} // verus!
