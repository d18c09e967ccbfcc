//! Physical memory zones (DMA, DMA32, Normal, HighMem) and NUMA node handles.
use vstd::prelude::*;

verus! {

/// End of the ISA DMA zone (16 MiB).
pub const DMA_ZONE_END: u64 = 0x100_0000;

/// End of the 32-bit DMA zone (4 GiB).
pub const DMA32_ZONE_END: u64 = 0x1_0000_0000;

/// Maximum number of NUMA nodes tracked by the physical memory manager.
pub const MAX_NUMA_NODES: usize = 8;

/// A physical memory zone.
#[derive(PartialEq, Eq, Structural, Clone, Copy, Debug)]
pub enum MemoryZone {
    /// 0 .. 16 MiB: ISA DMA capable memory.
    Dma,
    /// 16 MiB .. 4 GiB: 32-bit DMA capable memory.
    Dma32,
    /// 4 GiB and above.
    Normal,
    /// Memory above the kernel's direct mapping (currently empty).
    HighMem,
}

/// Zone identifier of a zone (0 = DMA, 1 = DMA32, 2 = Normal, 3 = HighMem).
pub open spec fn zone_index_spec(z: MemoryZone) -> int {
    match z {
        MemoryZone::Dma => 0,
        MemoryZone::Dma32 => 1,
        MemoryZone::Normal => 2,
        MemoryZone::HighMem => 3,
    }
}

/// First physical address of a zone.
pub open spec fn zone_start_spec(z: MemoryZone) -> u64 {
    match z {
        MemoryZone::Dma => 0,
        MemoryZone::Dma32 => DMA_ZONE_END,
        MemoryZone::Normal => DMA32_ZONE_END,
        MemoryZone::HighMem => u64::MAX,
    }
}

/// End address (exclusive) of a zone.
pub open spec fn zone_end_spec(z: MemoryZone) -> u64 {
    match z {
        MemoryZone::Dma => DMA_ZONE_END,
        MemoryZone::Dma32 => DMA32_ZONE_END,
        MemoryZone::Normal => u64::MAX,
        MemoryZone::HighMem => u64::MAX,
    }
}

/// The zone a physical address belongs to.
pub open spec fn zone_of_spec(addr: u64) -> MemoryZone {
    if addr < DMA_ZONE_END {
        MemoryZone::Dma
    } else if addr < DMA32_ZONE_END {
        MemoryZone::Dma32
    } else {
        MemoryZone::Normal
    }
}

impl MemoryZone {
    /// Numeric zone identifier, used to index per-zone statistics.
    pub fn index(&self) -> (r: usize)
        ensures
            r == zone_index_spec(*self),
            r < 4,
    {
        match self {
            MemoryZone::Dma => 0,
            MemoryZone::Dma32 => 1,
            MemoryZone::Normal => 2,
            MemoryZone::HighMem => 3,
        }
    }

    /// Zone from its numeric identifier (0..=3).
    pub fn from_index(id: u8) -> (r: Option<MemoryZone>)
        ensures
            id < 4 <==> r is Some,
            r matches Some(z) ==> zone_index_spec(z) == id,
    {
        match id {
            0 => Some(MemoryZone::Dma),
            1 => Some(MemoryZone::Dma32),
            2 => Some(MemoryZone::Normal),
            3 => Some(MemoryZone::HighMem),
            _ => None,
        }
    }

    /// First physical address belonging to the zone.
    pub fn start_address(&self) -> (r: u64)
        ensures
            r == zone_start_spec(*self),
    {
        match self {
            MemoryZone::Dma => 0,
            MemoryZone::Dma32 => DMA_ZONE_END,
            MemoryZone::Normal => DMA32_ZONE_END,
            MemoryZone::HighMem => u64::MAX,
        }
    }

    /// End (exclusive) physical address of the zone.
    pub fn end_address(&self) -> (r: u64)
        ensures
            r == zone_end_spec(*self),
    {
        match self {
            MemoryZone::Dma => DMA_ZONE_END,
            MemoryZone::Dma32 => DMA32_ZONE_END,
            MemoryZone::Normal => u64::MAX,
            MemoryZone::HighMem => u64::MAX,
        }
    }

    /// The zone that contains a physical address.
    pub fn from_address(addr: u64) -> (r: MemoryZone)
        ensures
            r == zone_of_spec(addr),
            zone_start_spec(r) <= addr,
            addr < zone_end_spec(r) || addr == u64::MAX,
    {
        if addr < DMA_ZONE_END {
            MemoryZone::Dma
        } else if addr < DMA32_ZONE_END {
            MemoryZone::Dma32
        } else {
            MemoryZone::Normal
        }
    }
}

/// A NUMA node identifier.
#[derive(PartialEq, Eq, Structural, Clone, Copy, Debug)]
pub struct NumaNode {
    pub id: u8,
}

impl NumaNode {
    /// Node with the given identifier.
    pub fn new(id: u8) -> (r: NumaNode)
        ensures
            r.id == id,
    {
        NumaNode { id }
    }

    /// The node's identifier.
    pub fn id(&self) -> (r: u8)
        ensures
            r == self.id,
    {
        self.id
    }
}

} // verus!
