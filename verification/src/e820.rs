//! E820 memory map: region types, entries and the map the bootloader hands over.
use vstd::prelude::*;

verus! {

/// Where the bootloader stores the memory map.
pub const MEMORY_MAP_ADDR: usize = 0x6000;

/// Maximum number of memory map entries.
pub const MAX_MEMORY_ENTRIES: usize = 64;

/// Size in bytes of one raw E820 entry.
pub const E820_ENTRY_SIZE: usize = 24;

/// E820 memory region types.
#[derive(PartialEq, Eq, Structural, Clone, Copy, Debug)]
pub enum E820Type {
    Usable,
    Reserved,
    AcpiReclaimable,
    AcpiNvs,
    BadMemory,
    Unknown,
}

/// The region type that a raw type value denotes.
pub open spec fn e820_type_of(val: u32) -> E820Type {
    if val == 1 {
        E820Type::Usable
    } else if val == 2 {
        E820Type::Reserved
    } else if val == 3 {
        E820Type::AcpiReclaimable
    } else if val == 4 {
        E820Type::AcpiNvs
    } else if val == 5 {
        E820Type::BadMemory
    } else {
        E820Type::Unknown
    }
}

impl E820Type {
    /// Convert from the raw type value.
    pub fn from_u32(val: u32) -> (r: E820Type)
        ensures
            r == e820_type_of(val),
    {
        match val {
            1 => E820Type::Usable,
            2 => E820Type::Reserved,
            3 => E820Type::AcpiReclaimable,
            4 => E820Type::AcpiNvs,
            5 => E820Type::BadMemory,
            _ => E820Type::Unknown,
        }
    }

    /// Human-readable name of the type.
    pub fn name(&self) -> (r: &'static str)
        ensures
            *self == E820Type::Usable ==> r@ == "Usable"@,
            *self == E820Type::Reserved ==> r@ == "Reserved"@,
            *self == E820Type::AcpiReclaimable ==> r@ == "ACPI Reclaimable"@,
            *self == E820Type::AcpiNvs ==> r@ == "ACPI NVS"@,
            *self == E820Type::BadMemory ==> r@ == "Bad Memory"@,
            *self == E820Type::Unknown ==> r@ == "Unknown"@,
    {
        match self {
            E820Type::Usable => "Usable",
            E820Type::Reserved => "Reserved",
            E820Type::AcpiReclaimable => "ACPI Reclaimable",
            E820Type::AcpiNvs => "ACPI NVS",
            E820Type::BadMemory => "Bad Memory",
            E820Type::Unknown => "Unknown",
        }
    }

    /// Whether the type is usable RAM.
    pub fn is_usable(&self) -> (r: bool)
        ensures
            r <==> *self == E820Type::Usable,
    {
        match self {
            E820Type::Usable => true,
            _ => false,
        }
    }
}

/// One E820 memory map entry.
#[derive(Clone, Copy, Debug)]
pub struct E820Entry {
    /// Base address of the region.
    pub base: u64,
    /// Length of the region in bytes.
    pub length: u64,
    /// Raw region type.
    pub region_type: u32,
    /// ACPI 3.0 extended attributes (bit 0 clear: ignore the entry).
    pub acpi_extended: u32,
}

/// End (exclusive) of an entry's region, saturating at `u64::MAX`.
pub open spec fn entry_end(e: E820Entry) -> u64 {
    if e.base + e.length > u64::MAX {
        u64::MAX
    } else {
        (e.base + e.length) as u64
    }
}

/// An entry is valid when its length is non-zero and it is enabled.
pub open spec fn entry_valid(e: E820Entry) -> bool {
    e.length > 0 && (e.acpi_extended & 1 != 0 || e.acpi_extended == 0)
}

/// An entry describes usable RAM.
pub open spec fn entry_usable(e: E820Entry) -> bool {
    entry_valid(e) && e.region_type == 1
}

impl E820Entry {
    /// End address (exclusive) of the region.
    pub fn end(&self) -> (r: u64)
        ensures
            r == entry_end(*self),
    {
        self.base.saturating_add(self.length)
    }

    /// Type of the region.
    pub fn memory_type(&self) -> (r: E820Type)
        ensures
            r == e820_type_of(self.region_type),
    {
        E820Type::from_u32(self.region_type)
    }

    /// Whether the entry is valid (non-zero length and enabled).
    pub fn is_valid(&self) -> (r: bool)
        ensures
            r == entry_valid(*self),
    {
        self.length > 0 && (self.acpi_extended & 1 != 0 || self.acpi_extended == 0)
    }

    /// Whether the entry describes usable RAM.
    pub fn is_usable(&self) -> (r: bool)
        ensures
            r == entry_usable(*self),
    {
        self.is_valid() && self.memory_type().is_usable()
    }

    /// Whether the region overlaps `[start, end)`.
    pub fn overlaps(&self, start: u64, end: u64) -> (r: bool)
        ensures
            r == (self.base < end && entry_end(*self) > start),
    {
        self.base < end && self.end() > start
    }

    /// Whether the region contains `addr`.
    pub fn contains(&self, addr: u64) -> (r: bool)
        ensures
            r == (addr >= self.base && addr < entry_end(*self)),
    {
        addr >= self.base && addr < self.end()
    }
}

/// Little-endian `u32` at byte offset `off`.
pub open spec fn le_u32(b: Seq<u8>, off: int) -> u32 {
    (b[off] as u32) | ((b[off + 1] as u32) << 8u32) | ((b[off + 2] as u32) << 16u32) | ((
    b[off + 3] as u32) << 24u32)
}

/// Little-endian `u64` at byte offset `off`.
pub open spec fn le_u64(b: Seq<u8>, off: int) -> u64 {
    (le_u32(b, off) as u64) | ((le_u32(b, off + 4) as u64) << 32u64)
}

/// The entry encoded by the raw bytes of entry number `i`.
pub open spec fn raw_entry(b: Seq<u8>, i: int) -> E820Entry {
    E820Entry {
        base: le_u64(b, 24 * i),
        length: le_u64(b, 24 * i + 8),
        region_type: le_u32(b, 24 * i + 16),
        acpi_extended: le_u32(b, 24 * i + 20),
    }
}

/// Raw entry number `i` is present in the buffer and ends nothing: its type is
/// 1 ..= 5 and its length is non-zero.
pub open spec fn raw_entry_accepted(b: Seq<u8>, i: int) -> bool {
    &&& 24 * i + 24 <= b.len()
    &&& 1 <= raw_entry(b, i).region_type <= 5
    &&& raw_entry(b, i).length != 0
}

fn read_le_u32(b: &[u8], off: usize) -> (r: u32)
    requires
        off + 4 <= b.len(),
    ensures
        r == le_u32(b@, off as int),
{
    (b[off] as u32) | ((b[off + 1] as u32) << 8u32) | ((b[off + 2] as u32) << 16u32) | ((b[off
        + 3] as u32) << 24u32)
}

fn read_le_u64(b: &[u8], off: usize) -> (r: u64)
    requires
        off + 8 <= b.len(),
    ensures
        r == le_u64(b@, off as int),
{
    (read_le_u32(b, off) as u64) | ((read_le_u32(b, off + 4) as u64) << 32u64)
}

/// Number of entries that an E820 map made of `s` holds, as a count over a predicate.
pub open spec fn count_usable(s: Seq<E820Entry>) -> nat
    decreases s.len(),
{
    if s.len() == 0 {
        0
    } else {
        count_usable(s.drop_last()) + if entry_usable(s.last()) {
            1nat
        } else {
            0nat
        }
    }
}

/// Number of valid entries in `s`.
pub open spec fn count_valid(s: Seq<E820Entry>) -> nat
    decreases s.len(),
{
    if s.len() == 0 {
        0
    } else {
        count_valid(s.drop_last()) + if entry_valid(s.last()) {
            1nat
        } else {
            0nat
        }
    }
}

/// Sum of the lengths of the usable entries of `s`, wrapping modulo 2^64.
pub open spec fn usable_total(s: Seq<E820Entry>) -> u64
    decreases s.len(),
{
    if s.len() == 0 {
        0
    } else {
        vstd::wrapping::u64_specs::wrapping_add(
            usable_total(s.drop_last()),
            if entry_usable(s.last()) {
                s.last().length
            } else {
                0
            },
        )
    }
}

/// Sum of the lengths of the valid entries of `s`, wrapping modulo 2^64.
pub open spec fn valid_total(s: Seq<E820Entry>) -> u64
    decreases s.len(),
{
    if s.len() == 0 {
        0
    } else {
        vstd::wrapping::u64_specs::wrapping_add(
            valid_total(s.drop_last()),
            if entry_valid(s.last()) {
                s.last().length
            } else {
                0
            },
        )
    }
}

/// Highest end address of a usable entry of `s` (0 when there is none).
pub open spec fn highest_usable(s: Seq<E820Entry>) -> u64
    decreases s.len(),
{
    if s.len() == 0 {
        0
    } else {
        let h = highest_usable(s.drop_last());
        if entry_usable(s.last()) && entry_end(s.last()) > h {
            entry_end(s.last())
        } else {
            h
        }
    }
}

/// The E820 memory map (at most `MAX_MEMORY_ENTRIES` entries).
pub struct MemoryMap {
    entries: Vec<E820Entry>,
}

impl View for MemoryMap {
    type V = Seq<E820Entry>;

    closed spec fn view(&self) -> Seq<E820Entry> {
        self.entries@
    }
}

impl MemoryMap {
    /// A map made of the given entries.
    pub fn from_entries(entries: Vec<E820Entry>) -> (r: MemoryMap)
        requires
            entries@.len() <= MAX_MEMORY_ENTRIES,
        ensures
            r@ == entries@,
            r.wf(),
    {
        MemoryMap { entries }
    }

    /// Parse the raw map the bootloader wrote: consecutive 24-byte entries,
    /// read until an entry with a type outside 1 ..= 5, a zero length, the end
    /// of the buffer, or `MAX_MEMORY_ENTRIES` entries.
    pub fn parse(raw: &[u8]) -> (r: MemoryMap)
        ensures
            r.wf(),
            r@.len() <= MAX_MEMORY_ENTRIES,
            forall|i: int| 0 <= i < r@.len() ==> raw_entry_accepted(raw@, i),
            forall|i: int| 0 <= i < r@.len() ==> #[trigger] r@[i] == raw_entry(raw@, i),
            r@.len() < MAX_MEMORY_ENTRIES ==> !raw_entry_accepted(raw@, r@.len() as int),
    {
        let mut entries: Vec<E820Entry> = Vec::new();
        let mut count: usize = 0;
        while count < MAX_MEMORY_ENTRIES
            invariant
                count <= MAX_MEMORY_ENTRIES,
                entries@.len() == count,
                forall|i: int| 0 <= i < count ==> raw_entry_accepted(raw@, i),
                forall|i: int| 0 <= i < count ==> #[trigger] entries@[i] == raw_entry(raw@, i),
            ensures
                count <= MAX_MEMORY_ENTRIES,
                entries@.len() == count,
                forall|i: int| 0 <= i < count ==> raw_entry_accepted(raw@, i),
                forall|i: int| 0 <= i < count ==> #[trigger] entries@[i] == raw_entry(raw@, i),
                count < MAX_MEMORY_ENTRIES ==> !raw_entry_accepted(raw@, count as int),
            decreases MAX_MEMORY_ENTRIES - count,
        {
            if count * 24 + 24 > raw.len() {
                break;
            }
            let off = count * 24;
            let entry = E820Entry {
                base: read_le_u64(raw, off),
                length: read_le_u64(raw, off + 8),
                region_type: read_le_u32(raw, off + 16),
                acpi_extended: read_le_u32(raw, off + 20),
            };
            if entry.region_type < 1 || entry.region_type > 5 {
                break;
            }
            if entry.length == 0 {
                break;
            }
            entries.push(entry);
            count += 1;
        }
        MemoryMap { entries }
    }

    /// The map holds at most `MAX_MEMORY_ENTRIES` entries.
    pub closed spec fn wf(&self) -> bool {
        self.entries@.len() <= MAX_MEMORY_ENTRIES
    }

    /// Number of entries in the map.
    pub fn entry_count(&self) -> (r: usize)
        ensures
            r == self@.len(),
    {
        self.entries.len()
    }

    /// Entry number `index`, if there is one.
    pub fn get(&self, index: usize) -> (r: Option<E820Entry>)
        ensures
            index < self@.len() ==> r == Some(self@[index as int]),
            index >= self@.len() ==> r is None,
    {
        if index < self.entries.len() {
            Some(self.entries[index])
        } else {
            None
        }
    }

    /// All entries and their number.
    pub fn entries_raw(&self) -> (r: (&[E820Entry], usize))
        ensures
            r.0@ == self@,
            r.1 == self@.len(),
    {
        (self.entries.as_slice(), self.entries.len())
    }

    /// Total bytes of the usable regions (the sum wraps modulo 2^64).
    pub fn total_usable_memory(&self) -> (r: u64)
        ensures
            r == usable_total(self@),
    {
        let mut total: u64 = 0;
        let mut i: usize = 0;
        while i < self.entries.len()
            invariant
                i <= self@.len(),
                total == usable_total(self@.take(i as int)),
            decreases self@.len() - i,
        {
            let entry = self.entries[i];
            assert(self@.take(i as int) == self@.take(i + 1).drop_last());
            if entry.is_usable() {
                total = total.wrapping_add(entry.length);
            } else {
                total = total.wrapping_add(0);
            }
            i += 1;
        }
        assert(self@.take(i as int) == self@);
        total
    }

    /// Total memory of all valid entries in bytes (the sum wraps modulo 2^64).
    pub fn total_memory(&self) -> (r: u64)
        ensures
            r == valid_total(self@),
    {
        let mut total: u64 = 0;
        let mut i: usize = 0;
        while i < self.entries.len()
            invariant
                i <= self@.len(),
                total == valid_total(self@.take(i as int)),
            decreases self@.len() - i,
        {
            let entry = self.entries[i];
            assert(self@.take(i as int) == self@.take(i + 1).drop_last());
            if entry.is_valid() {
                total = total.wrapping_add(entry.length);
            } else {
                total = total.wrapping_add(0);
            }
            i += 1;
        }
        assert(self@.take(i as int) == self@);
        total
    }

    /// The largest usable region: the first usable entry whose length no
    /// usable entry exceeds; `None` when there is no usable entry.
    pub fn largest_usable_region(&self) -> (r: Option<E820Entry>)
        ensures
            r is None <==> (forall|j: int| 0 <= j < self@.len() ==> !entry_usable(#[trigger] self@[j])),
            r matches Some(e) ==> exists|k: int|
                0 <= k < self@.len() && self@[k] == e && entry_usable(e) && (forall|j: int|
                    0 <= j < self@.len() && entry_usable(#[trigger] self@[j]) ==> self@[j].length <= e.length)
                    && (forall|j: int|
                    0 <= j < k && entry_usable(#[trigger] self@[j]) ==> self@[j].length < e.length),
    {
        let mut largest: Option<E820Entry> = None;
        let mut max_len: u64 = 0;
        let mut i: usize = 0;
        let ghost mut k: int = 0;
        while i < self.entries.len()
            invariant
                i <= self@.len(),
                largest is None ==> max_len == 0,
                largest is None ==> forall|j: int| 0 <= j < i ==> !entry_usable(#[trigger] self@[j]),
                largest matches Some(e) ==> {
                    &&& 0 <= k < i
                    &&& self@[k] == e
                    &&& entry_usable(e)
                    &&& e.length == max_len
                    &&& forall|j: int|
                        0 <= j < i && entry_usable(#[trigger] self@[j]) ==> self@[j].length <= max_len
                    &&& forall|j: int|
                        0 <= j < k && entry_usable(#[trigger] self@[j]) ==> self@[j].length < max_len
                },
            decreases self@.len() - i,
        {
            let entry = self.entries[i];
            if entry.is_usable() && entry.length > max_len {
                max_len = entry.length;
                largest = Some(entry);
                proof {
                    k = i as int;
                }
            }
            i += 1;
        }
        largest
    }

    /// The first usable entry that contains `addr`, if any.
    pub fn find_usable_region_containing(&self, addr: u64) -> (r: Option<E820Entry>)
        ensures
            r is None ==> forall|j: int|
                0 <= j < self@.len() ==> !(entry_usable(#[trigger] self@[j]) && addr >= self@[j].base
                    && addr < entry_end(self@[j])),
            r matches Some(e) ==> exists|k: int|
                0 <= k < self@.len() && self@[k] == e && entry_usable(e) && addr >= e.base && addr
                    < entry_end(e) && forall|j: int|
                    0 <= j < k ==> !(entry_usable(#[trigger] self@[j]) && addr >= self@[j].base
                        && addr < entry_end(self@[j])),
    {
        let mut i: usize = 0;
        while i < self.entries.len()
            invariant
                i <= self@.len(),
                forall|j: int|
                    0 <= j < i ==> !(entry_usable(#[trigger] self@[j]) && addr >= self@[j].base
                        && addr < entry_end(self@[j])),
            decreases self@.len() - i,
        {
            let entry = self.entries[i];
            if entry.is_usable() && entry.contains(addr) {
                return Some(entry);
            }
            i += 1;
        }
        None
    }

    /// Highest end address of a usable region (0 when there is none).
    pub fn highest_usable_address(&self) -> (r: u64)
        ensures
            r == highest_usable(self@),
    {
        let mut highest: u64 = 0;
        let mut i: usize = 0;
        while i < self.entries.len()
            invariant
                i <= self@.len(),
                highest == highest_usable(self@.take(i as int)),
            decreases self@.len() - i,
        {
            let entry = self.entries[i];
            assert(self@.take(i as int) == self@.take(i + 1).drop_last());
            if entry.is_usable() {
                let end = entry.end();
                if end > highest {
                    highest = end;
                }
            }
            i += 1;
        }
        assert(self@.take(i as int) == self@);
        highest
    }

    /// Number of usable regions.
    pub fn usable_region_count(&self) -> (r: usize)
        ensures
            r == count_usable(self@),
    {
        let mut count: usize = 0;
        let mut i: usize = 0;
        while i < self.entries.len()
            invariant
                i <= self@.len(),
                count == count_usable(self@.take(i as int)),
                count <= i,
            decreases self@.len() - i,
        {
            let entry = self.entries[i];
            assert(self@.take(i as int) == self@.take(i + 1).drop_last());
            if entry.is_usable() {
                count = count + 1;
            }
            i += 1;
        }
        assert(self@.take(i as int) == self@);
        count
    }

    /// Number of valid entries.
    pub fn valid_entry_count(&self) -> (r: usize)
        ensures
            r == count_valid(self@),
    {
        let mut count: usize = 0;
        let mut i: usize = 0;
        while i < self.entries.len()
            invariant
                i <= self@.len(),
                count == count_valid(self@.take(i as int)),
                count <= i,
            decreases self@.len() - i,
        {
            let entry = self.entries[i];
            assert(self@.take(i as int) == self@.take(i + 1).drop_last());
            if entry.is_valid() {
                count = count + 1;
            }
            i += 1;
        }
        assert(self@.take(i as int) == self@);
        count
    }
}

/// The kernel's memory map, once the bootloader's map has been read.
pub struct MemoryMapStorage {
    pub map: MemoryMap,
    pub initialized: bool,
}

impl MemoryMapStorage {
    /// Storage with no map read yet.
    pub fn new() -> (r: MemoryMapStorage)
        ensures
            !r.initialized,
            r.map@.len() == 0,
    {
        MemoryMapStorage { map: MemoryMap::from_entries(Vec::new()), initialized: false }
    }

    /// Read the bootloader's raw map into the storage.
    pub fn memory_init(&mut self, raw: &[u8])
        ensures
            final(self).initialized,
            final(self).map.wf(),
            final(self).map@.len() <= MAX_MEMORY_ENTRIES,
            forall|i: int| 0 <= i < final(self).map@.len() ==> raw_entry_accepted(raw@, i),
            forall|i: int| 0 <= i < final(self).map@.len() ==> #[trigger] final(self).map@[i] == raw_entry(raw@, i),
            final(self).map@.len() < MAX_MEMORY_ENTRIES ==> !raw_entry_accepted(
                raw@,
                final(self).map@.len() as int,
            ),
    {
        self.map = MemoryMap::parse(raw);
        self.initialized = true;
    }

    /// The map, once read.
    pub fn memory_get(&self) -> (r: Option<&MemoryMap>)
        ensures
            self.initialized ==> r == Some(&self.map),
            !self.initialized ==> r is None,
    {
        if self.initialized {
            Some(&self.map)
        } else {
            None
        }
    }

    /// Total usable bytes of the map; 0 before it is read.
    pub fn memory_get_total_usable(&self) -> (r: u64)
        ensures
            r == if self.initialized {
                usable_total(self.map@)
            } else {
                0
            },
    {
        if self.initialized {
            self.map.total_usable_memory()
        } else {
            0
        }
    }

    /// Highest usable address of the map; 0 before it is read.
    pub fn memory_get_highest_address(&self) -> (r: u64)
        ensures
            r == if self.initialized {
                highest_usable(self.map@)
            } else {
                0
            },
    {
        if self.initialized {
            self.map.highest_usable_address()
        } else {
            0
        }
    }
}

} // verus!
